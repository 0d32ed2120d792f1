use vstd::prelude::*;
use crate::error::Error;

verus! {

/// The event classes that a hook can watch.
#[derive(Clone, Copy, Debug, PartialEq, Eq, Structural)]
pub enum HookType {
    Intr,
    Insn,
    Code,
    Block,
    MemReadUnmapped,
    MemWriteUnmapped,
    MemFetchUnmapped,
    MemReadProt,
    MemWriteProt,
    MemFetchProt,
    MemRead,
    MemWrite,
    MemFetch,
    MemReadAfter,
}

/// A registered hook: its identifier, the events it watches and the
/// half-open address range `[begin, end)` it is scoped to; `begin == end == 0`
/// leaves it unrestricted.
#[derive(Clone, Copy, Debug, PartialEq, Eq, Structural)]
pub struct Hook {
    pub id: u64,
    pub kind: HookType,
    pub begin: u64,
    pub end: u64,
}

/// Whether `[begin, end)` is an acceptable scope: non-empty, or the
/// unrestricted `0, 0`.
pub open spec fn scope_valid(begin: u64, end: u64) -> bool {
    (begin == 0 && end == 0) || begin < end
}

/// Whether hook `h` is scoped to include address `addr`.
pub open spec fn in_scope(h: Hook, addr: u64) -> bool {
    (h.begin == 0 && h.end == 0) || (h.begin <= addr && addr < h.end)
}

/// Whether hook `h` fires for an event of `kind` at `addr`.
pub open spec fn fires(h: Hook, kind: HookType, addr: u64) -> bool {
    h.kind == kind && in_scope(h, addr)
}

/// The identifiers of the hooks of `hs` that fire for an event of `kind` at
/// `addr`, in registration order.
pub open spec fn fired(hs: Seq<Hook>, kind: HookType, addr: u64) -> Seq<u64>
    decreases hs.len(),
{
    if hs.len() == 0 {
        Seq::empty()
    } else {
        let prev = fired(hs.drop_last(), kind, addr);
        if fires(hs.last(), kind, addr) {
            prev.push(hs.last().id)
        } else {
            prev
        }
    }
}

/// An identifier is among those fired exactly when some hook with that
/// identifier fires.
pub proof fn lemma_fired_contains(hs: Seq<Hook>, kind: HookType, addr: u64, id: u64)
    ensures
        fired(hs, kind, addr).contains(id) <==> exists|i: int|
            0 <= i < hs.len() && (#[trigger] hs[i]).id == id && fires(hs[i], kind, addr),
    decreases hs.len(),
{
    if hs.len() > 0 {
        let init = hs.drop_last();
        lemma_fired_contains(init, kind, addr, id);
        let prev = fired(init, kind, addr);
        if fired(hs, kind, addr).contains(id) {
            if prev.contains(id) {
                let i = choose|i: int|
                    0 <= i < init.len() && (#[trigger] init[i]).id == id && fires(init[i], kind, addr);
                assert(hs[i] == init[i]);
            } else {
                let k = choose|k: int| 0 <= k < fired(hs, kind, addr).len() && fired(hs, kind, addr)[k] == id;
                assert(hs[hs.len() - 1].id == id);
            }
        }
        if exists|i: int| 0 <= i < hs.len() && (#[trigger] hs[i]).id == id && fires(hs[i], kind, addr) {
            let i = choose|i: int| 0 <= i < hs.len() && (#[trigger] hs[i]).id == id && fires(hs[i], kind, addr);
            if i < hs.len() - 1 {
                assert(init[i] == hs[i]);
                if fires(hs.last(), kind, addr) {
                    assert(fired(hs, kind, addr)[prev.index_of(id)] == id);
                }
            } else {
                assert(fired(hs, kind, addr)[prev.len() as int] == id);
            }
        }
    } else {
        assert(fired(hs, kind, addr) =~= Seq::<u64>::empty());
    }
}

/// The hooks registered on an engine, in registration order.
pub struct HookRegistry {
    hooks: Vec<Hook>,
    next_id: u64,
}

impl View for HookRegistry {
    type V = Seq<Hook>;

    closed spec fn view(&self) -> Seq<Hook> {
        self.hooks@
    }
}

impl HookRegistry {
    /// The identifier that the next registration hands out.
    pub closed spec fn next_id(self) -> u64 {
        self.next_id
    }

    /// Identifiers grow with registration order and stay below the next one,
    /// so no two hooks share an identifier.
    pub open spec fn wf(self) -> bool {
        &&& forall|i: int| 0 <= i < self@.len() ==> (#[trigger] self@[i]).id < self.next_id()
        &&& forall|i: int, j: int|
            0 <= i < j < self@.len() ==> (#[trigger] self@[i]).id < (#[trigger] self@[j]).id
    }

    /// An empty registry.
    pub fn new() -> (r: HookRegistry)
        ensures
            r.wf(),
            r@.len() == 0,
            r.next_id() == 1,
    {
        HookRegistry { hooks: Vec::new(), next_id: 1 }
    }

    /// Registers a hook on events of `kind` within `[begin, end)`.
    pub fn add(&mut self, kind: HookType, begin: u64, end: u64) -> (r: Result<u64, Error>)
        requires
            old(self).wf(),
        ensures
            final(self).wf(),
            !scope_valid(begin, end) ==> r == Err::<u64, Error>(Error::Arg),
            scope_valid(begin, end) && old(self).next_id() == u64::MAX ==> r == Err::<u64, Error>(Error::Resource),
            scope_valid(begin, end) && old(self).next_id() < u64::MAX ==> r is Ok,
            r is Err ==> *final(self) == *old(self),
            match r {
                Ok(id) => id == old(self).next_id() && final(self)@ == old(self)@.push(
                    (Hook { id, kind, begin, end }),
                ),
                Err(_) => true,
            },
    {
        if !((begin == 0 && end == 0) || begin < end) {
            return Err(Error::Arg);
        }
        if self.next_id == u64::MAX {
            return Err(Error::Resource);
        }
        let id = self.next_id;
        self.hooks.push(Hook { id, kind, begin, end });
        self.next_id = id + 1;
        Ok(id)
    }

    /// Removes the hook with identifier `id`.
    pub fn remove(&mut self, id: u64) -> (r: Result<(), Error>)
        requires
            old(self).wf(),
        ensures
            final(self).wf(),
            r is Ok <==> exists|i: int| 0 <= i < old(self)@.len() && (#[trigger] old(self)@[i]).id == id,
            r is Err ==> r == Err::<(), Error>(Error::Arg) && *final(self) == *old(self),
            final(self).next_id() == old(self).next_id(),
            r is Ok ==> exists|i: int|
                0 <= i < old(self)@.len() && (#[trigger] old(self)@[i]).id == id && final(self)@
                    == old(self)@.remove(i),
    {
        let mut k: usize = 0;
        while k < self.hooks.len()
            invariant
                *self == *old(self),
                self.wf(),
                k <= self.hooks@.len(),
                forall|j: int| 0 <= j < k ==> (#[trigger] self.hooks@[j]).id != id,
            decreases self.hooks@.len() - k,
        {
            if self.hooks[k].id == id {
                let ghost pre = self@;
                let _ = self.hooks.remove(k);
                proof {
                    assert(pre[k as int].id == id);
                    assert forall|i: int, j: int| 0 <= i < j < self@.len() implies (#[trigger] self@[i]).id
                        < (#[trigger] self@[j]).id by {
                        if j < k {
                        } else if i < k {
                            assert(pre[i].id < pre[j + 1].id);
                        } else {
                            assert(pre[i + 1].id < pre[j + 1].id);
                        }
                    }
                    assert forall|i: int| 0 <= i < self@.len() implies (#[trigger] self@[i]).id < self.next_id() by {
                        if i >= k {
                            assert(self@[i] == pre[i + 1]);
                        }
                    }
                }
                return Ok(());
            }
            k = k + 1;
        }
        Err(Error::Arg)
    }

    /// The identifiers of the hooks that fire for an event of `kind` at
    /// `addr`, in registration order.
    pub fn dispatch(&self, kind: HookType, addr: u64) -> (r: Vec<u64>)
        ensures
            r@ == fired(self@, kind, addr),
    {
        let mut out: Vec<u64> = Vec::new();
        let mut i: usize = 0;
        while i < self.hooks.len()
            invariant
                i <= self.hooks@.len(),
                out@ == fired(self@.take(i as int), kind, addr),
            decreases self.hooks@.len() - i,
        {
            let h = self.hooks[i];
            let scoped = (h.begin == 0 && h.end == 0) || (h.begin <= addr && addr < h.end);
            if h.kind == kind && scoped {
                out.push(h.id);
            }
            assert(self@.take(i + 1).drop_last() =~= self@.take(i as int));
            i = i + 1;
        }
        assert(self@.take(self@.len() as int) =~= self@);
        out
    }
}

/// A hook scoped to `[begin, end)` fires for an event of its kind at `addr`
/// exactly when `begin <= addr < end`.
pub proof fn lemma_scoped_hook_fires(reg: HookRegistry, i: int, addr: u64)
    requires
        reg.wf(),
        0 <= i < reg@.len(),
        reg@[i].begin < reg@[i].end,
    ensures
        fired(reg@, reg@[i].kind, addr).contains(reg@[i].id) <==> (reg@[i].begin <= addr
            && addr < reg@[i].end),
{
    let h = reg@[i];
    lemma_fired_contains(reg@, h.kind, addr, h.id);
    if fired(reg@, h.kind, addr).contains(h.id) {
        let j = choose|j: int|
            0 <= j < reg@.len() && (#[trigger] reg@[j]).id == h.id && fires(reg@[j], h.kind, addr);
        if j < i {
            assert(reg@[j].id < reg@[i].id);
        } else if i < j {
            assert(reg@[i].id < reg@[j].id);
        }
    }
}

} // verus!
