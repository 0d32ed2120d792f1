use vstd::prelude::*;
use crate::error::Error;

verus! {

/// The register file: one 64-bit slot per architecture-defined register id.
pub struct Registers {
    slots: Vec<u64>,
}

/// A snapshot of a register file and of the program counter, reusable
/// across many saves and restores.
pub struct Context {
    saved: Vec<u64>,
    pc: u64,
}

impl View for Registers {
    type V = Seq<u64>;

    closed spec fn view(&self) -> Seq<u64> {
        self.slots@
    }
}

impl View for Context {
    type V = Seq<u64>;

    closed spec fn view(&self) -> Seq<u64> {
        self.saved@
    }
}

/// The register file after writing `value` to register `id`.
pub open spec fn write_spec(regs: Seq<u64>, id: int, value: u64) -> Result<Seq<u64>, Error> {
    if 0 <= id < regs.len() {
        Ok(regs.update(id, value))
    } else {
        Err(Error::Arg)
    }
}

/// The register file after restoring snapshot `ctx` into `regs`: a snapshot
/// of a register file of another shape is refused.
pub open spec fn restore_spec(regs: Seq<u64>, ctx: Seq<u64>) -> Result<Seq<u64>, Error> {
    if ctx.len() == regs.len() {
        Ok(ctx)
    } else {
        Err(Error::Arg)
    }
}

/// The register file after a series of writes, each given as `(id, value)`;
/// a refused write leaves it as it was.
pub open spec fn after_writes(regs: Seq<u64>, writes: Seq<(int, u64)>) -> Seq<u64>
    decreases writes.len(),
{
    if writes.len() == 0 {
        regs
    } else {
        let prev = after_writes(regs, writes.drop_last());
        match write_spec(prev, writes.last().0, writes.last().1) {
            Ok(next) => next,
            Err(_) => prev,
        }
    }
}

/// Writes never change the shape of the register file.
pub proof fn lemma_writes_keep_len(regs: Seq<u64>, writes: Seq<(int, u64)>)
    ensures
        after_writes(regs, writes).len() == regs.len(),
    decreases writes.len(),
{
    if writes.len() > 0 {
        lemma_writes_keep_len(regs, writes.drop_last());
    }
}

/// Saving a register file and restoring the snapshot after any series of
/// writes gives back exactly the register file that was saved.
pub proof fn lemma_save_restore_round_trip(regs: Seq<u64>, writes: Seq<(int, u64)>)
    ensures
        restore_spec(after_writes(regs, writes), regs) == Ok::<Seq<u64>, Error>(regs),
{
    lemma_writes_keep_len(regs, writes);
}

impl Registers {
    /// A register file of `count` slots, all zero.
    pub fn new(count: usize) -> (r: Registers)
        ensures
            r@ == Seq::new(count as nat, |i: int| 0u64),
    {
        let mut slots: Vec<u64> = Vec::new();
        let mut i: usize = 0;
        while i < count
            invariant
                i <= count,
                slots@ == Seq::new(i as nat, |j: int| 0u64),
            decreases count - i,
        {
            slots.push(0u64);
            i = i + 1;
            assert(slots@ =~= Seq::new(i as nat, |j: int| 0u64));
        }
        Registers { slots }
    }

    /// The number of register slots.
    pub fn count(&self) -> (r: usize)
        ensures
            r == self@.len(),
    {
        self.slots.len()
    }

    /// Reads register `id`.
    pub fn read(&self, id: usize) -> (r: Result<u64, Error>)
        ensures
            r == if id < self@.len() {
                Ok::<u64, Error>(self@[id as int])
            } else {
                Err(Error::Arg)
            },
    {
        if id < self.slots.len() {
            Ok(self.slots[id])
        } else {
            Err(Error::Arg)
        }
    }

    /// Writes `value` to register `id`.
    pub fn write(&mut self, id: usize, value: u64) -> (r: Result<(), Error>)
        ensures
            match write_spec(old(self)@, id as int, value) {
                Ok(next) => r == Ok::<(), Error>(()) && final(self)@ == next,
                Err(e) => r == Err::<(), Error>(e) && final(self)@ == old(self)@,
            },
    {
        if id < self.slots.len() {
            self.slots.set(id, value);
            Ok(())
        } else {
            Err(Error::Arg)
        }
    }

    /// Captures the whole register file into `ctx`.
    pub fn save(&self, ctx: &mut Context)
        ensures
            final(ctx)@ == self@,
            final(ctx).pc() == old(ctx).pc(),
    {
        let mut saved: Vec<u64> = Vec::new();
        let mut i: usize = 0;
        while i < self.slots.len()
            invariant
                i <= self.slots@.len(),
                saved@ == self.slots@.take(i as int),
            decreases self.slots@.len() - i,
        {
            saved.push(self.slots[i]);
            i = i + 1;
            assert(saved@ =~= self.slots@.take(i as int));
        }
        assert(self.slots@.take(self.slots@.len() as int) =~= self.slots@);
        ctx.saved = saved;
    }

    /// Applies snapshot `ctx` to the register file.
    pub fn restore(&mut self, ctx: &Context) -> (r: Result<(), Error>)
        ensures
            match restore_spec(old(self)@, ctx@) {
                Ok(next) => r == Ok::<(), Error>(()) && final(self)@ == next,
                Err(e) => r == Err::<(), Error>(e) && final(self)@ == old(self)@,
            },
    {
        if ctx.saved.len() != self.slots.len() {
            return Err(Error::Arg);
        }
        let mut i: usize = 0;
        while i < ctx.saved.len()
            invariant
                i <= ctx.saved@.len(),
                self.slots@.len() == ctx.saved@.len(),
                forall|j: int| 0 <= j < i ==> self.slots@[j] == ctx.saved@[j],
            decreases ctx.saved@.len() - i,
        {
            self.slots.set(i, ctx.saved[i]);
            i = i + 1;
        }
        assert(self.slots@ =~= ctx.saved@);
        Ok(())
    }
}

impl Context {
    /// The program counter the snapshot holds.
    pub closed spec fn pc(self) -> u64 {
        self.pc
    }

    /// An empty snapshot, to be filled by `Registers::save`.
    pub fn new() -> (r: Context)
        ensures
            r@.len() == 0,
            r.pc() == 0,
    {
        Context { saved: Vec::new(), pc: 0 }
    }

    /// The number of registers the snapshot holds.
    pub fn len(&self) -> (r: usize)
        ensures
            r == self@.len(),
    {
        self.saved.len()
    }

    /// The program counter the snapshot holds.
    pub fn saved_pc(&self) -> (r: u64)
        ensures
            r == self.pc(),
    {
        self.pc
    }

    /// Records `pc` as the snapshot's program counter.
    pub fn set_pc(&mut self, pc: u64)
        ensures
            final(self)@ == old(self)@,
            final(self).pc() == pc,
    {
        self.pc = pc;
    }
}

} // verus!
