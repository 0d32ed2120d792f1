use vstd::prelude::*;
use crate::error::Error;
use crate::exec::{decide, decide_with_exits, Controller, ExecState, Outcome, Step};
use crate::hooks::{fired, HookRegistry, HookType};
use crate::memory::{unmapped_error, Access, MemRegion, Memory, Protection, PAGE_SIZE};
use crate::fuzz::{next_spec, FuzzSession};
use crate::registers::{Context, Registers};
use crate::error::AflRet;

verus! {

/// Major version of the control-plane interface.
pub const API_MAJOR: u32 = 1;

/// Minor version of the control-plane interface.
pub const API_MINOR: u32 = 0;

/// Number of register slots of an engine: every architecture's register ids
/// fall below it.
pub const REGISTER_SLOTS: usize = 512;

/// Mode bit: big-endian byte order.
pub const MODE_BIG_ENDIAN: u32 = 0x4000_0000;

/// Mode bit: Thumb instruction set (ARM).
pub const MODE_THUMB: u32 = 0x10;

/// Mode bit: Cortex-M profile (ARM).
pub const MODE_MCLASS: u32 = 0x20;

/// Mode bit: 16-bit mode (x86).
pub const MODE_16: u32 = 0x2;

/// Mode bit: 32-bit mode (x86, MIPS, SPARC, PPC).
pub const MODE_32: u32 = 0x4;

/// Mode bit: 64-bit mode (x86, MIPS, SPARC, PPC).
pub const MODE_64: u32 = 0x8;

/// The emulated architectures.
#[derive(Clone, Copy, Debug, PartialEq, Eq, Structural)]
pub enum Arch {
    Arm,
    Arm64,
    Mips,
    X86,
    Ppc,
    Sparc,
    M68k,
}

/// What `Engine::query` can report.
#[derive(Clone, Copy, Debug, PartialEq, Eq, Structural)]
pub enum Query {
    Mode,
    PageSize,
}

/// Whether the engine emulates `arch`.
pub open spec fn arch_supported_spec(arch: Arch) -> bool {
    arch != Arch::Ppc
}

/// The mode bits that `arch` accepts.
pub open spec fn mode_mask(arch: Arch) -> u32 {
    match arch {
        Arch::Arm | Arch::Arm64 => MODE_THUMB | MODE_MCLASS | MODE_BIG_ENDIAN,
        Arch::Mips => MODE_32 | MODE_64 | MODE_BIG_ENDIAN,
        Arch::X86 => MODE_16 | MODE_32 | MODE_64,
        Arch::Ppc => MODE_64 | MODE_BIG_ENDIAN,
        Arch::Sparc => MODE_32 | MODE_64 | MODE_BIG_ENDIAN,
        Arch::M68k => MODE_BIG_ENDIAN,
    }
}

/// Whether `arch` can run in `mode`: no bit outside its mask.
pub open spec fn mode_supported(arch: Arch, mode: u32) -> bool {
    mode & !mode_mask(arch) == 0
}

/// The usual modes of each architecture are accepted: x86 in 16, 32 and 64
/// bits, ARM and ARM64 in little-endian ARM or Thumb, MIPS and SPARC in 32
/// and 64 bits of either byte order, and M68K big-endian.
pub proof fn lemma_common_modes()
    ensures
        mode_supported(Arch::X86, MODE_16),
        mode_supported(Arch::X86, MODE_32),
        mode_supported(Arch::X86, MODE_64),
        mode_supported(Arch::Arm, 0),
        mode_supported(Arch::Arm, MODE_THUMB),
        mode_supported(Arch::Arm64, 0),
        mode_supported(Arch::Mips, MODE_32),
        mode_supported(Arch::Mips, MODE_32 | MODE_BIG_ENDIAN),
        mode_supported(Arch::Mips, MODE_64),
        mode_supported(Arch::Sparc, MODE_32 | MODE_BIG_ENDIAN),
        mode_supported(Arch::Sparc, MODE_64 | MODE_BIG_ENDIAN),
        mode_supported(Arch::M68k, MODE_BIG_ENDIAN),
{
    assert(0x2u32 & !(0x2u32 | 0x4u32 | 0x8u32) == 0) by (bit_vector);
    assert(0x4u32 & !(0x2u32 | 0x4u32 | 0x8u32) == 0) by (bit_vector);
    assert(0x8u32 & !(0x2u32 | 0x4u32 | 0x8u32) == 0) by (bit_vector);
    assert(0u32 & !(0x10u32 | 0x20u32 | 0x4000_0000u32) == 0) by (bit_vector);
    assert(0x10u32 & !(0x10u32 | 0x20u32 | 0x4000_0000u32) == 0) by (bit_vector);
    assert(0x4u32 & !(0x4u32 | 0x8u32 | 0x4000_0000u32) == 0) by (bit_vector);
    assert((0x4u32 | 0x4000_0000u32) & !(0x4u32 | 0x8u32 | 0x4000_0000u32) == 0) by (bit_vector);
    assert(0x8u32 & !(0x4u32 | 0x8u32 | 0x4000_0000u32) == 0) by (bit_vector);
    assert((0x8u32 | 0x4000_0000u32) & !(0x4u32 | 0x8u32 | 0x4000_0000u32) == 0) by (bit_vector);
    assert(0x4000_0000u32 & !0x4000_0000u32 == 0) by (bit_vector);
}

/// The version pair of the control-plane interface.
pub fn version() -> (r: (u32, u32))
    ensures
        r == (API_MAJOR, API_MINOR),
{
    (API_MAJOR, API_MINOR)
}

/// Whether the engine emulates `arch`.
pub fn arch_supported(arch: Arch) -> (r: bool)
    ensures
        r == arch_supported_spec(arch),
{
    match arch {
        Arch::Ppc => false,
        _ => true,
    }
}

fn mode_mask_of(arch: Arch) -> (r: u32)
    ensures
        r == mode_mask(arch),
{
    match arch {
        Arch::Arm | Arch::Arm64 => MODE_THUMB | MODE_MCLASS | MODE_BIG_ENDIAN,
        Arch::Mips => MODE_32 | MODE_64 | MODE_BIG_ENDIAN,
        Arch::X86 => MODE_16 | MODE_32 | MODE_64,
        Arch::Ppc => MODE_64 | MODE_BIG_ENDIAN,
        Arch::Sparc => MODE_32 | MODE_64 | MODE_BIG_ENDIAN,
        Arch::M68k => MODE_BIG_ENDIAN,
    }
}

/// The class of hooks that an access of `kind` with outcome `res` raises:
/// the valid-access hooks on success, else the unmapped or the protection
/// hooks of that kind.
pub open spec fn access_hook_type(kind: Access, res: Result<(), Error>) -> HookType {
    match res {
        Ok(_) => match kind {
            Access::Read => HookType::MemRead,
            Access::Write => HookType::MemWrite,
            Access::Fetch => HookType::MemFetch,
        },
        Err(e) => if e == unmapped_error(kind) {
            match kind {
                Access::Read => HookType::MemReadUnmapped,
                Access::Write => HookType::MemWriteUnmapped,
                Access::Fetch => HookType::MemFetchUnmapped,
            }
        } else {
            match kind {
                Access::Read => HookType::MemReadProt,
                Access::Write => HookType::MemWriteProt,
                Access::Fetch => HookType::MemFetchProt,
            }
        },
    }
}

fn hook_type_of(kind: Access, res: Result<(), Error>) -> (r: HookType)
    ensures
        r == access_hook_type(kind, res),
{
    match res {
        Ok(_) => match kind {
            Access::Read => HookType::MemRead,
            Access::Write => HookType::MemWrite,
            Access::Fetch => HookType::MemFetch,
        },
        Err(e) => if e == kind.unmapped_error() {
            match kind {
                Access::Read => HookType::MemReadUnmapped,
                Access::Write => HookType::MemWriteUnmapped,
                Access::Fetch => HookType::MemFetchUnmapped,
            }
        } else {
            match kind {
                Access::Read => HookType::MemReadProt,
                Access::Write => HookType::MemWriteProt,
                Access::Fetch => HookType::MemFetchProt,
            }
        },
    }
}

/// One emulated machine: its address space, registers, hooks and execution
/// controller, and the status of the last operation.
pub struct Engine {
    arch: Arch,
    mode: u32,
    mem: Memory,
    regs: Registers,
    hooks: HookRegistry,
    controller: Controller,
    last_error: Error,
}

/// `n` is `o` with at most the components whose flag is false changed (the
/// last error aside): the address space, the registers, the hooks and the
/// execution controller.
pub open spec fn keeps(o: Engine, n: Engine, mem: bool, regs: bool, hooks: bool, ctl: bool) -> bool {
    &&& n.arch() == o.arch()
    &&& n.mode() == o.mode()
    &&& mem ==> n.mem() == o.mem()
    &&& regs ==> n.regs()@ == o.regs()@
    &&& hooks ==> n.hooks() == o.hooks()
    &&& ctl ==> n.controller()@ == o.controller()@
}

/// The state of a controller that finished its run.
pub open spec fn idle(s: ExecState) -> ExecState {
    ExecState { running: false, stop_requested: false, ..s }
}

/// The status code that the result `r` of an operation leaves behind.
pub open spec fn status_of<T>(r: Result<T, Error>) -> Error {
    match r {
        Ok(_) => Error::Success,
        Err(e) => e,
    }
}

impl Engine {
    /// The architecture the engine emulates.
    pub closed spec fn arch(self) -> Arch {
        self.arch
    }

    /// The mode bits the engine was opened with.
    pub closed spec fn mode(self) -> u32 {
        self.mode
    }

    /// The guest address space.
    pub closed spec fn mem(self) -> Memory {
        self.mem
    }

    /// The register file.
    pub closed spec fn regs(self) -> Registers {
        self.regs
    }

    /// The registered hooks.
    pub closed spec fn hooks(self) -> HookRegistry {
        self.hooks
    }

    /// The execution controller.
    pub closed spec fn controller(self) -> Controller {
        self.controller
    }

    /// The status of the last operation that recorded one.
    pub closed spec fn last_error(self) -> Error {
        self.last_error
    }

    /// Every component is well formed.
    pub open spec fn wf(self) -> bool {
        &&& self.mem().wf()
        &&& self.hooks().wf()
        &&& self.regs()@.len() == REGISTER_SLOTS
    }

    /// Opens an engine for `arch` in `mode`, with nothing mapped, every
    /// register zero and no hook.
    pub fn open(arch: Arch, mode: u32) -> (r: Result<Engine, Error>)
        ensures
            !arch_supported_spec(arch) ==> r == Err::<Engine, Error>(Error::Arch),
            arch_supported_spec(arch) && !mode_supported(arch, mode) ==> r == Err::<Engine, Error>(
                Error::Mode,
            ),
            arch_supported_spec(arch) && mode_supported(arch, mode) ==> r is Ok,
            match r {
                Ok(e) => {
                    &&& e.wf()
                    &&& e.arch() == arch
                    &&& e.mode() == mode
                    &&& e.last_error() == Error::Success
                    &&& e.mem().layout().len() == 0
                    &&& e.regs()@ == Seq::new(REGISTER_SLOTS as nat, |i: int| 0u64)
                    &&& e.hooks()@.len() == 0
                    &&& e.hooks().next_id() == 1
                    &&& !e.controller()@.running
                },
                Err(_) => true,
            },
    {
        if !arch_supported(arch) {
            return Err(Error::Arch);
        }
        if mode & !mode_mask_of(arch) != 0 {
            return Err(Error::Mode);
        }
        Ok(Engine {
            arch,
            mode,
            mem: Memory::new(),
            regs: Registers::new(REGISTER_SLOTS),
            hooks: HookRegistry::new(),
            controller: Controller::new(),
            last_error: Error::Success,
        })
    }

    /// The status of the last operation that recorded one.
    pub fn errno(&self) -> (r: Error)
        ensures
            r == self.last_error(),
    {
        self.last_error
    }

    /// Reports the mode or the page size.
    pub fn query(&self, kind: Query) -> (r: u64)
        ensures
            r == match kind {
                Query::Mode => self.mode() as u64,
                Query::PageSize => PAGE_SIZE,
            },
    {
        match kind {
            Query::Mode => self.mode as u64,
            Query::PageSize => PAGE_SIZE,
        }
    }

    /// Maps `[base, base + size)` with `perms`; see `Memory::map`.
    pub fn mem_map(&mut self, base: u64, size: u64, perms: Protection) -> (r: Result<(), Error>)
        requires
            old(self).wf(),
        ensures
            final(self).wf(),
            r == old(self).mem().map_result(base, size),
            final(self).last_error() == status_of(r),
            keeps(*old(self), *final(self), r is Err, true, true, true),
            r is Ok ==> forall|a: int|
                #[trigger] final(self).mem().mapped(a) == (old(self).mem().mapped(a) || base <= a
                    < base + size),
            r is Ok ==> forall|a: int| #[trigger]
                old(self).mem().mapped(a) ==> final(self).mem().perms_at(a) == old(self).mem().perms_at(a)
                    && final(self).mem().byte_at(a) == old(self).mem().byte_at(a),
            r is Ok ==> forall|a: int|
                #![trigger final(self).mem().perms_at(a)]
                #![trigger final(self).mem().byte_at(a)]
                base <= a < base + size ==> final(self).mem().perms_at(a) == perms
                    && final(self).mem().byte_at(a) == 0,
    {
        let r = self.mem.map(base, size, perms);
        self.last_error = match r {
            Ok(()) => Error::Success,
            Err(e) => e,
        };
        r
    }

    /// Reads `len` bytes at `addr`; see `Memory::read`.
    pub fn mem_read(&mut self, addr: u64, len: usize) -> (r: Result<Vec<u8>, Error>)
        requires
            old(self).wf(),
        ensures
            final(self).wf(),
            keeps(*old(self), *final(self), true, true, true, true),
            final(self).last_error() == status_of(r),
            match r {
                Ok(v) => {
                    &&& old(self).mem().access_result(addr as int, len as int, Access::Read)
                        == Ok::<(), Error>(())
                    &&& v@.len() == len
                    &&& forall|k: int| 0 <= k < len ==> v@[k] == old(self).mem().byte_at(addr + k)
                },
                Err(e) => old(self).mem().access_result(addr as int, len as int, Access::Read)
                    == Err::<(), Error>(e),
            },
    {
        let r = self.mem.read(addr, len);
        self.last_error = match &r {
            Ok(_) => Error::Success,
            Err(e) => *e,
        };
        r
    }

    /// Writes `bytes` at `addr`; see `Memory::write`.
    pub fn mem_write(&mut self, addr: u64, bytes: &[u8]) -> (r: Result<(), Error>)
        requires
            old(self).wf(),
        ensures
            final(self).wf(),
            r == old(self).mem().access_result(addr as int, bytes@.len() as int, Access::Write),
            final(self).last_error() == status_of(r),
            keeps(*old(self), *final(self), r is Err, true, true, true),
            final(self).mem().layout() == old(self).mem().layout(),
            forall|a: int| #[trigger] final(self).mem().mapped(a) == old(self).mem().mapped(a),
            forall|a: int|
                #[trigger] old(self).mem().mapped(a) ==> final(self).mem().perms_at(a)
                    == old(self).mem().perms_at(a),
            r is Ok ==> forall|a: int|
                #[trigger] old(self).mem().mapped(a) ==> final(self).mem().byte_at(a) == if addr <= a
                    < addr + bytes@.len() {
                    bytes@[a - addr]
                } else {
                    old(self).mem().byte_at(a)
                },
    {
        let r = self.mem.write(addr, bytes);
        self.last_error = match r {
            Ok(()) => Error::Success,
            Err(e) => e,
        };
        r
    }

    /// Reads register `id`.
    pub fn reg_read(&mut self, id: usize) -> (r: Result<u64, Error>)
        requires
            old(self).wf(),
        ensures
            final(self).wf(),
            keeps(*old(self), *final(self), true, true, true, true),
            final(self).last_error() == status_of(r),
            r == if id < REGISTER_SLOTS {
                Ok::<u64, Error>(old(self).regs()@[id as int])
            } else {
                Err(Error::Arg)
            },
    {
        let r = self.regs.read(id);
        self.last_error = match r {
            Ok(_) => Error::Success,
            Err(e) => e,
        };
        r
    }

    /// Writes `value` to register `id`.
    pub fn reg_write(&mut self, id: usize, value: u64) -> (r: Result<(), Error>)
        requires
            old(self).wf(),
        ensures
            final(self).wf(),
            keeps(*old(self), *final(self), true, false, true, true),
            final(self).last_error() == status_of(r),
            r == if id < REGISTER_SLOTS {
                Ok::<(), Error>(())
            } else {
                Err(Error::Arg)
            },
            final(self).regs()@ == if id < REGISTER_SLOTS {
                old(self).regs()@.update(id as int, value)
            } else {
                old(self).regs()@
            },
    {
        let r = self.regs.write(id, value);
        self.last_error = match r {
            Ok(()) => Error::Success,
            Err(e) => e,
        };
        r
    }

    /// Unmaps `[base, base + size)`; see `Memory::unmap`.
    pub fn mem_unmap(&mut self, base: u64, size: u64) -> (r: Result<(), Error>)
        requires
            old(self).wf(),
        ensures
            final(self).wf(),
            r == old(self).mem().unmap_result(base, size),
            final(self).last_error() == status_of(r),
            keeps(*old(self), *final(self), r is Err, true, true, true),
            r is Ok ==> forall|a: int|
                #[trigger] final(self).mem().mapped(a) == (old(self).mem().mapped(a) && !(base <= a
                    < base + size)),
            r is Ok ==> forall|a: int| #[trigger]
                final(self).mem().mapped(a) ==> final(self).mem().perms_at(a) == old(self).mem().perms_at(a)
                    && final(self).mem().byte_at(a) == old(self).mem().byte_at(a),
    {
        let r = self.mem.unmap(base, size);
        self.last_error = match r {
            Ok(()) => Error::Success,
            Err(e) => e,
        };
        r
    }

    /// Re-protects `[base, base + size)`; see `Memory::protect`.
    pub fn mem_protect(&mut self, base: u64, size: u64, perms: Protection) -> (r: Result<(), Error>)
        requires
            old(self).wf(),
        ensures
            final(self).wf(),
            r == old(self).mem().protect_result(base, size),
            final(self).last_error() == status_of(r),
            keeps(*old(self), *final(self), r is Err, true, true, true),
            forall|a: int| #[trigger] final(self).mem().mapped(a) == old(self).mem().mapped(a),
            r is Ok ==> forall|a: int| #[trigger]
                old(self).mem().mapped(a) ==> final(self).mem().byte_at(a) == old(self).mem().byte_at(a)
                    && final(self).mem().perms_at(a) == if base <= a < base + size {
                    perms
                } else {
                    old(self).mem().perms_at(a)
                },
    {
        let r = self.mem.protect(base, size, perms);
        self.last_error = match r {
            Ok(()) => Error::Success,
            Err(e) => e,
        };
        r
    }

    /// The mapped regions, sorted by base address.
    pub fn mem_regions(&self) -> (r: Vec<MemRegion>)
        requires
            self.wf(),
        ensures
            r@ == self.mem().layout(),
    {
        self.mem.regions()
    }

    /// Registers a hook; see `HookRegistry::add`.
    pub fn hook_add(&mut self, kind: HookType, begin: u64, end: u64) -> (r: Result<u64, Error>)
        requires
            old(self).wf(),
        ensures
            final(self).wf(),
            final(self).last_error() == status_of(r),
            keeps(*old(self), *final(self), true, true, r is Err, true),
            !crate::hooks::scope_valid(begin, end) ==> r == Err::<u64, Error>(Error::Arg),
            crate::hooks::scope_valid(begin, end) && old(self).hooks().next_id() == u64::MAX ==> r
                == Err::<u64, Error>(Error::Resource),
            crate::hooks::scope_valid(begin, end) && old(self).hooks().next_id() < u64::MAX ==> r is Ok,
            match r {
                Ok(id) => id == old(self).hooks().next_id() && final(self).hooks()@ == old(
                    self,
                ).hooks()@.push((crate::hooks::Hook { id, kind, begin, end })),
                Err(_) => true,
            },
    {
        let r = self.hooks.add(kind, begin, end);
        self.last_error = match r {
            Ok(_) => Error::Success,
            Err(e) => e,
        };
        r
    }

    /// Removes a hook; see `HookRegistry::remove`.
    pub fn hook_del(&mut self, id: u64) -> (r: Result<(), Error>)
        requires
            old(self).wf(),
        ensures
            final(self).wf(),
            final(self).last_error() == status_of(r),
            keeps(*old(self), *final(self), true, true, r is Err, true),
            r is Ok <==> exists|i: int|
                0 <= i < old(self).hooks()@.len() && (#[trigger] old(self).hooks()@[i]).id == id,
            r is Err ==> r == Err::<(), Error>(Error::Arg),
            r is Ok ==> exists|i: int|
                0 <= i < old(self).hooks()@.len() && (#[trigger] old(self).hooks()@[i]).id == id
                    && final(self).hooks()@ == old(self).hooks()@.remove(i),
            final(self).hooks().next_id() == old(self).hooks().next_id(),
    {
        let r = self.hooks.remove(id);
        self.last_error = match r {
            Ok(()) => Error::Success,
            Err(e) => e,
        };
        r
    }

    /// Begins a run; see `Controller::start`.
    pub fn emu_start(&mut self, begin: u64, until: u64, timeout: u64, count: u64) -> (r: Result<(), Error>)
        requires
            old(self).wf(),
        ensures
            final(self).wf(),
            final(self).last_error() == status_of(r),
            keeps(*old(self), *final(self), true, true, true, r is Err),
            old(self).controller()@.running ==> r == Err::<(), Error>(Error::Arg),
            !old(self).controller()@.running ==> r is Ok && final(self).controller()@ == (ExecState {
                running: true,
                pc: begin,
                until,
                timeout,
                budget: count,
                executed: 0,
                stop_requested: false,
            }),
    {
        let r = self.controller.start(begin, until, timeout, count);
        self.last_error = match r {
            Ok(()) => Error::Success,
            Err(e) => e,
        };
        r
    }

    /// Asks the run in progress to end at the next instruction boundary.
    pub fn emu_stop(&mut self) -> (r: Result<(), Error>)
        requires
            old(self).wf(),
        ensures
            final(self).wf(),
            r is Ok,
            final(self).last_error() == old(self).last_error(),
            keeps(*old(self), *final(self), true, true, true, false),
            final(self).controller()@ == (ExecState {
                stop_requested: old(self).controller()@.running,
                ..old(self).controller()@
            }),
    {
        self.controller.stop()
    }

    /// Takes the decision at an instruction boundary and, when an
    /// instruction is to run, names the code hooks to call first, in
    /// registration order.
    pub fn boundary(&mut self, elapsed: u64) -> (r: (Step, Vec<u64>))
        requires
            old(self).wf(),
        ensures
            final(self).wf(),
            final(self).last_error() == old(self).last_error(),
            keeps(*old(self), *final(self), true, true, true, false),
            r.0 == decide(old(self).controller()@, elapsed),
            r.0 is Finish ==> final(self).controller()@ == idle(old(self).controller()@),
            r.0 is Execute ==> final(self).controller()@ == old(self).controller()@,
            match r.0 {
                Step::Execute(pc) => r.1@ == fired(old(self).hooks()@, HookType::Code, pc),
                Step::Finish(_) => r.1@.len() == 0,
            },
    {
        let step = self.controller.next_step(elapsed);
        match step {
            Step::Execute(pc) => {
                let ids = self.hooks.dispatch(HookType::Code, pc);
                (step, ids)
            },
            Step::Finish(_) => (step, Vec::new()),
        }
    }

    /// Whether a run is in progress.
    pub fn is_running(&self) -> (r: bool)
        ensures
            r == self.controller()@.running,
    {
        self.controller.is_running()
    }

    /// Records that the instruction at the program counter was executed and
    /// that execution continues at `next_pc`.
    pub fn retire(&mut self, next_pc: u64)
        requires
            old(self).wf(),
            old(self).controller()@.running,
        ensures
            final(self).wf(),
            final(self).last_error() == old(self).last_error(),
            keeps(*old(self), *final(self), true, true, true, false),
            final(self).controller()@ == (ExecState {
                pc: next_pc,
                executed: if old(self).controller()@.executed == u64::MAX {
                    u64::MAX
                } else {
                    (old(self).controller()@.executed + 1) as u64
                },
                ..old(self).controller()@
            }),
    {
        self.controller.retire(next_pc)
    }

    /// Ends the run on exception `e`, which becomes the last error.
    pub fn fault(&mut self, e: Error) -> (r: Result<(), Error>)
        requires
            old(self).wf(),
        ensures
            final(self).wf(),
            r == Err::<(), Error>(e),
            final(self).last_error() == e,
            keeps(*old(self), *final(self), true, true, true, false),
            final(self).controller()@ == idle(old(self).controller()@),
    {
        let o = self.controller.fault(e);
        self.last_error = e;
        o.status()
    }

    /// Decides an access of `kind` to `[addr, addr + len)` made by the
    /// running program, and names the memory hooks it raises at `addr`, in
    /// registration order.
    pub fn access_event(&self, addr: u64, len: usize, kind: Access) -> (r: (Result<(), Error>, Vec<u64>))
        requires
            self.wf(),
        ensures
            r.0 == self.mem().access_result(addr as int, len as int, kind),
            r.1@ == fired(self.hooks()@, access_hook_type(kind, r.0), addr),
    {
        let res = self.mem.check(addr, len, kind);
        let ids = self.hooks.dispatch(hook_type_of(kind, res), addr);
        (res, ids)
    }

    /// Like `boundary`, but reaching one of the session's exit addresses
    /// ends the run as completed.
    pub fn fuzz_boundary(&mut self, elapsed: u64, session: &FuzzSession) -> (r: (Step, Vec<u64>))
        requires
            old(self).wf(),
        ensures
            final(self).wf(),
            final(self).last_error() == old(self).last_error(),
            keeps(*old(self), *final(self), true, true, true, false),
            r.0 == decide_with_exits(old(self).controller()@, elapsed, session.exits()),
            r.0 is Finish ==> final(self).controller()@ == idle(old(self).controller()@),
            r.0 is Execute ==> final(self).controller()@ == old(self).controller()@,
            match r.0 {
                Step::Execute(pc) => r.1@ == fired(old(self).hooks()@, HookType::Code, pc),
                Step::Finish(_) => r.1@.len() == 0,
            },
    {
        let step = self.controller.next_step(elapsed);
        match step {
            Step::Execute(pc) => {
                if session.is_exit(pc) {
                    let o = self.controller.halt();
                    (Step::Finish(o), Vec::new())
                } else {
                    let ids = self.hooks.dispatch(HookType::Code, pc);
                    (step, ids)
                }
            },
            Step::Finish(_) => (step, Vec::new()),
        }
    }

    /// Asks `session` for the next iteration and, when one is granted, resets
    /// the registers and the program counter from `ctx`. A snapshot of
    /// another shape is refused before the session is asked.
    pub fn next_iteration(&mut self, session: &mut FuzzSession, ctx: &Context) -> (r: AflRet)
        requires
            old(self).wf(),
            old(session).wf(),
        ensures
            final(self).wf(),
            final(session).wf(),
            final(session).exits() == old(session).exits(),
            ctx@.len() != REGISTER_SLOTS ==> r == AflRet::Error && *final(session) == *old(session)
                && *final(self) == *old(self),
            ctx@.len() == REGISTER_SLOTS ==> (final(session)@, r) == next_spec(old(session)@),
            r == AflRet::Child ==> final(self).regs()@ == ctx@ && final(self).controller()@ == (
            ExecState { pc: ctx.pc(), ..old(self).controller()@ }),
            keeps(*old(self), *final(self), true, r != AflRet::Child, true, r != AflRet::Child),
    {
        if ctx.len() != REGISTER_SLOTS {
            return AflRet::Error;
        }
        let r = session.next();
        if r == AflRet::Child {
            let _ = self.context_restore(ctx);
        }
        r
    }

    /// A fresh context, to be filled by `context_save`.
    pub fn context_alloc(&self) -> (r: Context)
        ensures
            r@.len() == 0,
    {
        Context::new()
    }

    /// Captures the register file into `ctx`.
    pub fn context_save(&self, ctx: &mut Context)
        ensures
            final(ctx)@ == self.regs()@,
            final(ctx).pc() == self.controller()@.pc,
    {
        self.regs.save(ctx);
        ctx.set_pc(self.controller.pc());
    }

    /// Applies `ctx` to the register file.
    pub fn context_restore(&mut self, ctx: &Context) -> (r: Result<(), Error>)
        requires
            old(self).wf(),
        ensures
            final(self).wf(),
            final(self).last_error() == status_of(r),
            keeps(*old(self), *final(self), true, r is Err, true, r is Err),
            r is Ok <==> ctx@.len() == REGISTER_SLOTS,
            r is Err ==> r == Err::<(), Error>(Error::Arg),
            r is Ok ==> final(self).regs()@ == ctx@ && final(self).controller()@ == (ExecState {
                pc: ctx.pc(),
                ..old(self).controller()@
            }),
    {
        let r = self.regs.restore(ctx);
        match r {
            Ok(()) => {
                self.controller.set_pc(ctx.saved_pc());
                self.last_error = Error::Success;
            },
            Err(e) => {
                self.last_error = e;
            },
        }
        r
    }
}

} // verus!
