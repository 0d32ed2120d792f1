use unicorn::engine::{arch_supported, version, Arch, Engine, Query, MODE_32, MODE_64, MODE_THUMB};
use unicorn::exec::{Outcome, Step};
use unicorn::hooks::HookType;
use unicorn::error::Error;
use unicorn::memory::{Access, Protection};
use unicorn::fuzz::FuzzSession;
use unicorn::registers::Context;
use unicorn::error::AflRet;

#[test]
fn open_checks_arch_and_mode() {
    assert!(arch_supported(Arch::X86));
    assert!(!arch_supported(Arch::Ppc));
    assert!(matches!(Engine::open(Arch::Ppc, MODE_64), Err(Error::Arch)));
    assert!(matches!(Engine::open(Arch::X86, MODE_THUMB), Err(Error::Mode)));
    assert!(Engine::open(Arch::X86, MODE_32).is_ok());
    assert_eq!(version(), (1, 0));
}

#[test]
fn engine_records_last_error() {
    let mut e = Engine::open(Arch::Arm, MODE_THUMB).ok().unwrap();
    assert_eq!(e.errno(), Error::Success);
    assert_eq!(e.query(Query::PageSize), 4096);
    assert_eq!(e.query(Query::Mode), MODE_THUMB as u64);
    let ro = Protection { read: true, write: false, execute: false };
    assert_eq!(e.mem_map(0x1000, 0x1000, ro), Ok(()));
    assert_eq!(e.mem_write(0x1000, &[1]), Err(Error::WriteProt));
    assert_eq!(e.errno(), Error::WriteProt);
    assert_eq!(e.mem_read(0x1000, 1), Ok(vec![0]));
    assert_eq!(e.errno(), Error::Success);
    assert_eq!(e.reg_read(100000), Err(Error::Arg));
    assert_eq!(e.errno(), Error::Arg);
}

#[test]
fn engine_context_round_trip() {
    let mut e = Engine::open(Arch::X86, MODE_64).ok().unwrap();
    assert_eq!(e.reg_write(7, 42), Ok(()));
    let mut ctx = e.context_alloc();
    e.context_save(&mut ctx);
    assert_eq!(e.reg_write(7, 43), Ok(()));
    assert_eq!(e.context_restore(&ctx), Ok(()));
    assert_eq!(e.reg_read(7), Ok(42));
}

#[test]
fn error_messages() {
    assert_eq!(Error::Success.msg(), "OK (UC_ERR_OK)");
    assert_eq!(Error::WriteProt.msg(), "Write to write-protected memory (UC_ERR_WRITE_PROT)");
    assert_eq!(Error::ReadUnmapped.msg(), "Invalid memory read (UC_ERR_READ_UNMAPPED)");
}

#[test]
fn engine_boundary_fires_code_hook_until_reached() {
    let mut e = Engine::open(Arch::X86, MODE_32).ok().unwrap();
    let id = e.hook_add(HookType::Code, 0x1000, 0x1010).unwrap();
    assert_eq!(e.emu_start(0x1000, 0x1010, 0, 0), Ok(()));
    let mut fired = 0;
    let outcome = loop {
        let (step, ids) = e.boundary(0);
        match step {
            Step::Execute(pc) => {
                fired += ids.iter().filter(|h| **h == id).count();
                e.retire(pc + 2);
            }
            Step::Finish(o) => break o,
        }
    };
    assert!(fired >= 1);
    assert_eq!(outcome, Outcome::Completed);
    assert!(!e.is_running());
    assert_eq!(e.hook_del(id), Ok(()));
    assert_eq!(e.hook_del(id), Err(Error::Arg));
    assert_eq!(e.errno(), Error::Arg);
}

#[test]
fn engine_stop_and_fault() {
    let mut e = Engine::open(Arch::Mips, MODE_32).ok().unwrap();
    assert_eq!(e.emu_start(0, 0x100, 0, 0), Ok(()));
    assert_eq!(e.emu_stop(), Ok(()));
    assert_eq!(e.boundary(0).0, Step::Finish(Outcome::Stopped));
    assert_eq!(e.emu_start(0, 0x100, 0, 0), Ok(()));
    assert_eq!(e.fault(Error::FetchUnmapped), Err(Error::FetchUnmapped));
    assert_eq!(e.errno(), Error::FetchUnmapped);
    assert!(!e.is_running());
}

#[test]
fn engine_memory_management() {
    let mut e = Engine::open(Arch::M68k, 0).ok().unwrap();
    let rw = Protection { read: true, write: true, execute: false };
    assert_eq!(e.mem_map(0x1000, 0x2000, rw), Ok(()));
    assert_eq!(e.mem_protect(0x1000, 0x1000, Protection { read: true, write: false, execute: false }), Ok(()));
    assert_eq!(e.mem_regions().len(), 2);
    assert_eq!(e.mem_unmap(0x1000, 0x1000), Ok(()));
    assert_eq!(e.mem_regions().len(), 1);
    assert_eq!(e.mem_unmap(0x1000, 0x1000), Err(Error::NoMem));
    assert_eq!(e.errno(), Error::NoMem);
}

#[test]
fn access_event_picks_hook_class() {
    let mut e = Engine::open(Arch::Arm64, 0).ok().unwrap();
    let ro = Protection { read: true, write: false, execute: false };
    assert_eq!(e.mem_map(0x1000, 0x1000, ro), Ok(()));
    let valid = e.hook_add(HookType::MemRead, 0, 0).unwrap();
    let prot = e.hook_add(HookType::MemWriteProt, 0, 0).unwrap();
    let unmapped = e.hook_add(HookType::MemFetchUnmapped, 0x8000, 0x9000).unwrap();
    assert_eq!(e.access_event(0x1000, 4, Access::Read), (Ok(()), vec![valid]));
    assert_eq!(e.access_event(0x1000, 4, Access::Write), (Err(Error::WriteProt), vec![prot]));
    assert_eq!(e.access_event(0x8000, 4, Access::Fetch), (Err(Error::FetchUnmapped), vec![unmapped]));
    assert_eq!(e.access_event(0x7000, 4, Access::Fetch), (Err(Error::FetchUnmapped), vec![]));
}

#[test]
fn exit_address_ends_fuzz_run() {
    let mut e = Engine::open(Arch::X86, MODE_64).ok().unwrap();
    let s = FuzzSession::new(vec![0x1008], false, 0);
    assert_eq!(e.emu_start(0x1000, 0x2000, 0, 0), Ok(()));
    let mut executed = 0;
    let outcome = loop {
        let (step, _) = e.fuzz_boundary(0, &s);
        match step {
            Step::Execute(pc) => {
                executed += 1;
                e.retire(pc + 4);
            }
            Step::Finish(o) => break o,
        }
    };
    assert_eq!(outcome, Outcome::Completed);
    assert_eq!(executed, 2);
    assert!(!e.is_running());
}

#[test]
fn context_keeps_program_counter() {
    let mut e = Engine::open(Arch::X86, MODE_64).ok().unwrap();
    assert_eq!(e.emu_start(0x4000, 0x5000, 0, 0), Ok(()));
    assert_eq!(e.reg_write(1, 11), Ok(()));
    let mut ctx = e.context_alloc();
    e.context_save(&mut ctx);
    assert_eq!(ctx.saved_pc(), 0x4000);
    e.retire(0x4010);
    assert_eq!(e.reg_write(1, 12), Ok(()));
    assert_eq!(e.context_restore(&ctx), Ok(()));
    assert_eq!(e.reg_read(1), Ok(11));
    assert_eq!(e.boundary(0).0, Step::Execute(0x4000));
}

#[test]
fn each_iteration_starts_from_the_snapshot() {
    let mut e = Engine::open(Arch::X86, MODE_64).ok().unwrap();
    let mut s = FuzzSession::new(vec![0x1010], false, 2);
    assert_eq!(e.reg_write(0, 1), Ok(()));
    let mut ctx = e.context_alloc();
    e.context_save(&mut ctx);
    assert_eq!(s.forkserver_start(true), AflRet::Child);
    assert_eq!(s.handshake(true), AflRet::Child);
    for _ in 0..2 {
        assert_eq!(e.next_iteration(&mut s, &ctx), AflRet::Child);
        assert_eq!(e.reg_read(0), Ok(1));
        assert_eq!(e.reg_write(0, 99), Ok(()));
        assert_eq!(s.end_iteration(false), Ok(()));
    }
    assert_eq!(e.next_iteration(&mut s, &ctx), AflRet::Finished);
    let bad = Context::new();
    assert_eq!(e.next_iteration(&mut s, &bad), AflRet::Error);
}
