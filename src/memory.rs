use vstd::prelude::*;
use crate::error::Error;

verus! {

/// Granularity of every mapping: bases and sizes are multiples of it.
pub const PAGE_SIZE: u64 = 4096;

/// Permissions attached to a mapped region.
#[derive(Clone, Copy, Debug, PartialEq, Eq, Structural)]
pub struct Protection {
    pub read: bool,
    pub write: bool,
    pub execute: bool,
}

/// The kind of a guest memory access.
#[derive(Clone, Copy, Debug, PartialEq, Eq, Structural)]
pub enum Access {
    Read,
    Write,
    Fetch,
}

/// One mapped region: the closed interval `[begin, end]` and its permissions.
#[derive(Clone, Copy, Debug, PartialEq, Eq, Structural)]
pub struct MemRegion {
    /// The start address of the region (inclusive).
    pub begin: u64,
    /// The end address of the region (inclusive).
    pub end: u64,
    /// The memory permissions of the region.
    pub perms: Protection,
}

/// Whether permissions `p` admit an access of kind `k`.
pub open spec fn allows(p: Protection, k: Access) -> bool {
    match k {
        Access::Read => p.read,
        Access::Write => p.write,
        Access::Fetch => p.execute,
    }
}

/// The error for an access of kind `k` that touches unmapped memory.
pub open spec fn unmapped_error(k: Access) -> Error {
    match k {
        Access::Read => Error::ReadUnmapped,
        Access::Write => Error::WriteUnmapped,
        Access::Fetch => Error::FetchUnmapped,
    }
}

/// The error for an access of kind `k` that mapped memory does not permit.
pub open spec fn protection_error(k: Access) -> Error {
    match k {
        Access::Read => Error::ReadProt,
        Access::Write => Error::WriteProt,
        Access::Fetch => Error::FetchProt,
    }
}

impl Protection {
    /// Whether these permissions admit an access of kind `k`.
    pub fn allows(&self, k: Access) -> (r: bool)
        ensures
            r == allows(*self, k),
    {
        match k {
            Access::Read => self.read,
            Access::Write => self.write,
            Access::Fetch => self.execute,
        }
    }
}

impl Access {
    /// The error for this access on unmapped memory.
    pub fn unmapped_error(self) -> (r: Error)
        ensures
            r == unmapped_error(self),
    {
        match self {
            Access::Read => Error::ReadUnmapped,
            Access::Write => Error::WriteUnmapped,
            Access::Fetch => Error::FetchUnmapped,
        }
    }

    /// The error for this access on memory that does not permit it.
    pub fn protection_error(self) -> (r: Error)
        ensures
            r == protection_error(self),
    {
        match self {
            Access::Read => Error::ReadProt,
            Access::Write => Error::WriteProt,
            Access::Fetch => Error::FetchProt,
        }
    }
}

/// A mapped region together with its backing bytes.
pub struct Mapping {
    pub region: MemRegion,
    pub data: Vec<u8>,
}

/// Whether mapping `m` holds address `a`.
pub open spec fn covers(m: Mapping, a: int) -> bool {
    m.region.begin <= a <= m.region.end
}

/// Whether `[base, base + size)` shares an address with mapping `m`.
pub open spec fn overlaps(m: Mapping, base: int, size: int) -> bool {
    m.region.begin < base + size && base <= m.region.end
}

/// Whether `[base, base + size)` is a non-empty, page-aligned range of the
/// 64-bit guest space.
pub open spec fn range_valid(base: u64, size: u64) -> bool {
    &&& size > 0
    &&& base % PAGE_SIZE == 0
    &&& size % PAGE_SIZE == 0
    &&& base + size - 1 <= u64::MAX
}

/// A zero-filled buffer of `n` bytes.
fn zeroed(n: usize) -> (r: Vec<u8>)
    ensures
        r@ == Seq::new(n as nat, |i: int| 0u8),
{
    let mut v: Vec<u8> = Vec::new();
    let mut i: usize = 0;
    while i < n
        invariant
            i <= n,
            v@ == Seq::new(i as nat, |j: int| 0u8),
        decreases n - i,
    {
        v.push(0u8);
        i = i + 1;
        assert(v@ =~= Seq::new(i as nat, |j: int| 0u8));
    }
    v
}

/// Whether `p` is the part `[p.begin, p.end]` of mapping `m`, with the same
/// bytes there.
pub open spec fn piece_of(p: Mapping, m: Mapping) -> bool {
    &&& m.region.begin <= p.region.begin <= p.region.end <= m.region.end
    &&& p.data@ == m.data@.subrange(
        p.region.begin - m.region.begin,
        p.region.end - m.region.begin + 1,
    )
}

/// Whether some mapping of `t` holds address `a`.
pub open spec fn seq_mapped(t: Seq<Mapping>, a: int) -> bool {
    exists|j: int| 0 <= j < t.len() && covers(#[trigger] t[j], a)
}

/// The part `[lo, hi]` of mapping `m`, with permissions `perms`.
fn piece(m: &Mapping, lo: u64, hi: u64, perms: Protection) -> (r: Mapping)
    requires
        m.region.begin <= lo <= hi <= m.region.end,
        m.data@.len() == m.region.end - m.region.begin + 1,
    ensures
        r.region == (MemRegion { begin: lo, end: hi, perms }),
        piece_of(r, *m),
{
    let from: usize = (lo - m.region.begin) as usize;
    let to: usize = (hi - m.region.begin) as usize;
    let n: usize = m.data.len();
    assert(to < n);
    let mut data: Vec<u8> = Vec::new();
    let mut k: usize = from;
    while k <= to
        invariant
            from <= k <= to + 1,
            to < n,
            n == m.data@.len(),
            data@ == m.data@.subrange(from as int, k as int),
        decreases to + 1 - k,
    {
        data.push(m.data[k]);
        k = k + 1;
        assert(data@ =~= m.data@.subrange(from as int, k as int));
    }
    Mapping { region: MemRegion { begin: lo, end: hi, perms }, data }
}

/// The guest address space: a table of mappings sorted by base address.
pub struct Memory {
    maps: Vec<Mapping>,
}

impl Memory {
    /// The mappings, in the order of the table.
    pub closed spec fn table(self) -> Seq<Mapping> {
        self.maps@
    }

    /// Each mapping is page aligned and backed by exactly its bytes; the
    /// table is sorted by base address and no two mappings share an address.
    pub open spec fn wf(self) -> bool {
        &&& forall|i: int|
            0 <= i < self.table().len() ==> {
                let m = #[trigger] self.table()[i];
                &&& m.region.begin <= m.region.end
                &&& (m.region.begin as int) % (PAGE_SIZE as int) == 0
                &&& (m.region.end + 1) % (PAGE_SIZE as int) == 0
                &&& m.data@.len() == m.region.end - m.region.begin + 1
            }
        &&& forall|i: int, j: int|
            0 <= i < j < self.table().len() ==> #[trigger] self.table()[i].region.end
                < #[trigger] self.table()[j].region.begin
    }

    /// The regions, in order of base address.
    pub open spec fn layout(self) -> Seq<MemRegion> {
        self.table().map_values(|m: Mapping| m.region)
    }

    /// Whether address `a` lies in some mapped region.
    pub open spec fn mapped(self, a: int) -> bool {
        exists|i: int| 0 <= i < self.table().len() && covers(#[trigger] self.table()[i], a)
    }

    /// The position in the table of the mapping that holds `a`.
    pub open spec fn index_of(self, a: int) -> int {
        choose|i: int| 0 <= i < self.table().len() && covers(#[trigger] self.table()[i], a)
    }

    /// The permissions at a mapped address.
    pub open spec fn perms_at(self, a: int) -> Protection {
        self.table()[self.index_of(a)].region.perms
    }

    /// The byte stored at a mapped address.
    pub open spec fn byte_at(self, a: int) -> u8 {
        let m = self.table()[self.index_of(a)];
        m.data@[a - m.region.begin]
    }

    /// Whether every address of `[addr, addr + len)` is mapped.
    pub open spec fn span_mapped(self, addr: int, len: int) -> bool {
        forall|k: int| 0 <= k < len ==> #[trigger] self.mapped(addr + k)
    }

    /// Whether every mapped address of `[addr, addr + len)` permits `kind`.
    pub open spec fn span_allows(self, addr: int, len: int, kind: Access) -> bool {
        forall|k: int|
            0 <= k < len && #[trigger] self.mapped(addr + k) ==> allows(
                self.perms_at(addr + k),
                kind,
            )
    }

    /// The outcome that an access of `kind` to `[addr, addr + len)` has.
    pub open spec fn access_result(self, addr: int, len: int, kind: Access) -> Result<(), Error> {
        if !self.span_mapped(addr, len) {
            Err(unmapped_error(kind))
        } else if !self.span_allows(addr, len, kind) {
            Err(protection_error(kind))
        } else {
            Ok(())
        }
    }

    /// The mapping that holds an address is the one that `index_of` picks.
    pub proof fn lemma_index_of(self, i: int, a: int)
        requires
            self.wf(),
            0 <= i < self.table().len(),
            covers(self.table()[i], a),
        ensures
            self.mapped(a),
            self.index_of(a) == i,
    {
        let j = self.index_of(a);
        assert(covers(self.table()[j], a));
        if j < i {
            assert(self.table()[j].region.end < self.table()[i].region.begin);
        } else if i < j {
            assert(self.table()[i].region.end < self.table()[j].region.begin);
        }
    }

    /// Within one mapped region with permissions `P`, an access of a kind that
    /// `P` admits succeeds, and one of any other kind fails with the
    /// protection error of that kind.
    pub proof fn lemma_access_within_region(self, i: int, addr: int, len: int, kind: Access)
        requires
            self.wf(),
            0 <= i < self.layout().len(),
            len > 0,
            self.layout()[i].begin <= addr,
            addr + len - 1 <= self.layout()[i].end,
        ensures
            self.access_result(addr, len, kind) == if allows(self.layout()[i].perms, kind) {
                Ok::<(), Error>(())
            } else {
                Err(protection_error(kind))
            },
    {
        let p = self.layout()[i].perms;
        assert(self.layout()[i] == self.table()[i].region);
        assert forall|k: int| 0 <= k < len implies #[trigger] self.mapped(addr + k)
            && self.perms_at(addr + k) == p by {
            self.lemma_index_of(i, addr + k);
        }
        if !allows(p, kind) {
            assert(self.mapped(addr + 0));
        }
    }

    /// A span whose every address is mapped with the same permissions `p`
    /// admits an access exactly when `p` admits its kind; otherwise the
    /// access fails with the protection error of that kind.
    pub proof fn lemma_access_uniform(self, addr: int, len: int, kind: Access, p: Protection)
        requires
            len > 0,
            forall|k: int|
                0 <= k < len ==> #[trigger] self.mapped(addr + k) && self.perms_at(addr + k) == p,
        ensures
            self.access_result(addr, len, kind) == if allows(p, kind) {
                Ok::<(), Error>(())
            } else {
                Err(protection_error(kind))
            },
    {
        assert(self.mapped(addr + 0));
    }

    /// An access that touches no mapped address fails with the unmapped
    /// error of its kind.
    pub proof fn lemma_access_outside_regions(self, addr: int, len: int, kind: Access)
        requires
            len > 0,
            forall|k: int| 0 <= k < len ==> !#[trigger] self.mapped(addr + k),
        ensures
            self.access_result(addr, len, kind) == Err::<(), Error>(unmapped_error(kind)),
    {
        assert(!self.mapped(addr + 0));
    }

    /// An empty address space.
    pub fn new() -> (r: Memory)
        ensures
            r.wf(),
            r.layout().len() == 0,
            forall|a: int| !r.mapped(a),
    {
        Memory { maps: Vec::new() }
    }

    /// The position of the mapping that holds `a`, if any.
    fn find(&self, a: u64) -> (r: Option<usize>)
        requires
            self.wf(),
        ensures
            match r {
                Some(i) => i < self.table().len() && covers(self.table()[i as int], a as int)
                    && self.index_of(a as int) == i,
                None => !self.mapped(a as int),
            },
    {
        let mut i: usize = 0;
        while i < self.maps.len()
            invariant
                self.wf(),
                i <= self.maps@.len(),
                forall|j: int| 0 <= j < i ==> !covers(#[trigger] self.maps@[j], a as int),
            decreases self.maps@.len() - i,
        {
            if self.maps[i].region.begin <= a && a <= self.maps[i].region.end {
                proof {
                    self.lemma_index_of(i as int, a as int);
                }
                return Some(i);
            }
            i = i + 1;
        }
        None
    }

    /// A mapped address is an address of the 64-bit guest space.
    pub proof fn lemma_mapped_bound(self, a: int)
        requires
            self.mapped(a),
        ensures
            0 <= a <= u64::MAX,
    {
        let i = choose|i: int| 0 <= i < self.table().len() && covers(#[trigger] self.table()[i], a);
        assert(covers(self.table()[i], a));
    }

    /// Decides an access of `kind` to `[addr, addr + len)`: every byte must be
    /// mapped, then every byte must permit it.
    pub fn check(&self, addr: u64, len: usize, kind: Access) -> (r: Result<(), Error>)
        requires
            self.wf(),
        ensures
            r == self.access_result(addr as int, len as int, kind),
    {
        let mut k: usize = 0;
        while k < len
            invariant
                self.wf(),
                k <= len,
                forall|j: int| 0 <= j < k ==> #[trigger] self.mapped(addr + j),
            decreases len - k,
        {
            if addr > u64::MAX - (k as u64) {
                proof {
                    if self.mapped(addr + k) {
                        self.lemma_mapped_bound(addr + k);
                    }
                }
                return Err(kind.unmapped_error());
            }
            let a: u64 = addr + k as u64;
            if self.find(a).is_none() {
                return Err(kind.unmapped_error());
            }
            k = k + 1;
        }
        let mut k: usize = 0;
        while k < len
            invariant
                self.wf(),
                k <= len,
                self.span_mapped(addr as int, len as int),
                forall|j: int|
                    0 <= j < k ==> allows(#[trigger] self.perms_at(addr + j), kind),
            decreases len - k,
        {
            proof {
                assert(self.mapped(addr + k));
                self.lemma_mapped_bound(addr + k);
            }
            let a: u64 = addr + k as u64;
            match self.find(a) {
                Some(i) => {
                    if !self.maps[i].region.perms.allows(kind) {
                        return Err(kind.protection_error());
                    }
                },
                None => {
                    return Err(kind.unmapped_error());
                },
            }
            k = k + 1;
        }
        proof {
            assert forall|j: int|
                0 <= j < len && #[trigger] self.mapped(addr + j) implies allows(
                self.perms_at(addr + j),
                kind,
            ) by {
                assert(allows(self.perms_at(addr + j), kind));
            }
        }
        Ok(())
    }

    /// Reads `len` bytes from `addr`.
    pub fn read(&self, addr: u64, len: usize) -> (r: Result<Vec<u8>, Error>)
        requires
            self.wf(),
        ensures
            match r {
                Ok(v) => {
                    &&& self.access_result(addr as int, len as int, Access::Read) == Ok::<(), Error>(())
                    &&& v@.len() == len
                    &&& forall|k: int| 0 <= k < len ==> v@[k] == self.byte_at(addr + k)
                },
                Err(e) => self.access_result(addr as int, len as int, Access::Read) == Err::<(), Error>(e),
            },
    {
        match self.check(addr, len, Access::Read) {
            Err(e) => {
                return Err(e);
            },
            Ok(()) => {},
        }
        let mut out: Vec<u8> = Vec::new();
        let mut k: usize = 0;
        while k < len
            invariant
                self.wf(),
                k <= len,
                self.span_mapped(addr as int, len as int),
                out@.len() == k,
                forall|j: int| 0 <= j < k ==> out@[j] == self.byte_at(addr + j),
            decreases len - k,
        {
            proof {
                assert(self.mapped(addr + k));
                self.lemma_mapped_bound(addr + k);
            }
            let a: u64 = addr + k as u64;
            match self.find(a) {
                Some(i) => {
                    let off: u64 = a - self.maps[i].region.begin;
                    let n: usize = self.maps[i].data.len();
                    assert(off < n);
                    out.push(self.maps[i].data[off as usize]);
                },
                None => {
                    return Err(Error::ReadUnmapped);
                },
            }
            k = k + 1;
        }
        Ok(out)
    }

    /// Writes `bytes` at `addr`; on failure nothing is written.
    pub fn write(&mut self, addr: u64, bytes: &[u8]) -> (r: Result<(), Error>)
        requires
            old(self).wf(),
        ensures
            final(self).wf(),
            r == old(self).access_result(addr as int, bytes@.len() as int, Access::Write),
            r is Err ==> *final(self) == *old(self),
            final(self).layout() == old(self).layout(),
            forall|a: int| #[trigger] final(self).mapped(a) == old(self).mapped(a),
            forall|a: int|
                #[trigger] old(self).mapped(a) ==> final(self).perms_at(a) == old(self).perms_at(a),
            r is Ok ==> forall|a: int|
                #[trigger] old(self).mapped(a) ==> final(self).byte_at(a) == if addr <= a < addr
                    + bytes@.len() {
                    bytes@[a - addr]
                } else {
                    old(self).byte_at(a)
                },
    {
        let len: usize = bytes.len();
        match self.check(addr, len, Access::Write) {
            Err(e) => {
                return Err(e);
            },
            Ok(()) => {},
        }
        let ghost pre = *self;
        let mut k: usize = 0;
        while k < len
            invariant
                pre.wf(),
                self.wf(),
                len == bytes@.len(),
                k <= len,
                pre.span_mapped(addr as int, len as int),
                self.maps@.len() == pre.maps@.len(),
                forall|i: int|
                    0 <= i < self.maps@.len() ==> (#[trigger] self.maps@[i]).region
                        == pre.maps@[i].region && self.maps@[i].data@.len()
                        == pre.maps@[i].data@.len(),
                forall|i: int, j: int|
                    0 <= i < self.maps@.len() && 0 <= j < self.maps@[i].data@.len() ==> {
                        let b = self.maps@[i].region.begin + j;
                        #[trigger] self.maps@[i].data@[j] == if addr <= b < addr + k {
                            bytes@[b - addr]
                        } else {
                            pre.maps@[i].data@[j]
                        }
                    },
            decreases len - k,
        {
            proof {
                assert(pre.mapped(addr + k));
                pre.lemma_mapped_bound(addr + k);
            }
            let a: u64 = addr + k as u64;
            let ghost before = *self;
            proof {
                let i0 = pre.index_of(a as int);
                assert(covers(self.table()[i0], a as int));
                assert(self.mapped(a as int));
            }
            match self.find(a) {
                Some(i) => {
                    let off: u64 = a - self.maps[i].region.begin;
                    let n: usize = self.maps[i].data.len();
                    assert(off < n);
                    self.maps[i].data[off as usize] = bytes[k];
                    proof {
                        assert forall|i2: int, j: int|
                            0 <= i2 < self.maps@.len() && 0 <= j
                                < self.maps@[i2].data@.len() implies {
                            let b = self.maps@[i2].region.begin + j;
                            #[trigger] self.maps@[i2].data@[j] == if addr <= b < addr + k + 1 {
                                bytes@[b - addr]
                            } else {
                                pre.maps@[i2].data@[j]
                            }
                        } by {
                            let b = self.maps@[i2].region.begin + j;
                            assert(before.maps@[i2].data@.len() == self.maps@[i2].data@.len());
                            if b == a && i2 != i {
                                before.lemma_index_of(i2, a as int);
                            }
                        }
                    }
                },
                None => {
                    return Err(Error::WriteUnmapped);
                },
            }
            k = k + 1;
        }
        proof {
            assert(self.wf());
            assert(self.layout() =~= pre.layout());
            assert forall|a: int| #[trigger] self.mapped(a) == pre.mapped(a) by {
                if pre.mapped(a) {
                    let i = pre.index_of(a);
                    assert(covers(self.maps@[i], a));
                }
                if self.mapped(a) {
                    let i = self.index_of(a);
                    assert(covers(pre.maps@[i], a));
                }
            }
            assert forall|a: int| #[trigger] pre.mapped(a) implies self.perms_at(a) == pre.perms_at(a)
                && self.byte_at(a) == if addr <= a < addr + len {
                bytes@[a - addr]
            } else {
                pre.byte_at(a)
            } by {
                let i = pre.index_of(a);
                self.lemma_index_of(i, a);
            }
        }
        Ok(())
    }

    /// Whether `[base, base + size)` shares an address with a mapped region.
    pub open spec fn conflicts(self, base: int, size: int) -> bool {
        exists|i: int| 0 <= i < self.table().len() && overlaps(#[trigger] self.table()[i], base, size)
    }

    /// The outcome that mapping `[base, base + size)` has.
    pub open spec fn map_result(self, base: u64, size: u64) -> Result<(), Error> {
        if !range_valid(base, size) {
            Err(Error::Arg)
        } else if self.conflicts(base as int, size as int) {
            Err(Error::MapConflict)
        } else if size > usize::MAX {
            Err(Error::NoMem)
        } else {
            Ok(())
        }
    }

    /// A range that holds a mapped address conflicts with the table, so
    /// mapping it is refused and leaves the table as it was.
    pub proof fn lemma_overlap_conflicts(self, base: u64, size: u64, a: int)
        requires
            self.mapped(a),
            base <= a < base + size,
            range_valid(base, size),
        ensures
            self.conflicts(base as int, size as int),
            self.map_result(base, size) == Err::<(), Error>(Error::MapConflict),
    {
        let i = choose|i: int| 0 <= i < self.table().len() && covers(#[trigger] self.table()[i], a);
        assert(overlaps(self.table()[i], base as int, size as int));
    }

    /// Whether `[base, base + size)` is free of mapped regions.
    fn free_range(&self, base: u64, size: u64) -> (r: bool)
        requires
            self.wf(),
            range_valid(base, size),
        ensures
            r == !self.conflicts(base as int, size as int),
    {
        let end: u64 = base + (size - 1);
        let mut k: usize = 0;
        while k < self.maps.len()
            invariant
                self.wf(),
                range_valid(base, size),
                k <= self.maps@.len(),
                end == base + size - 1,
                forall|j: int| 0 <= j < k ==> !overlaps(#[trigger] self.maps@[j], base as int, size as int),
            decreases self.maps@.len() - k,
        {
            if self.maps[k].region.begin <= end && base <= self.maps[k].region.end {
                assert(overlaps(self.table()[k as int], base as int, size as int));
                return false;
            }
            k = k + 1;
        }
        true
    }

    /// Maps `[base, base + size)` with permissions `perms`, zero-filled.
    pub fn map(&mut self, base: u64, size: u64, perms: Protection) -> (r: Result<(), Error>)
        requires
            old(self).wf(),
        ensures
            final(self).wf(),
            r == old(self).map_result(base, size),
            r is Err ==> *final(self) == *old(self),
            old(self).conflicts(base as int, size as int) ==> *final(self) == *old(self),
            r is Ok ==> forall|a: int|
                #[trigger] final(self).mapped(a) == (old(self).mapped(a) || base <= a < base
                    + size),
            r is Ok ==> forall|a: int| #[trigger]
                old(self).mapped(a) ==> final(self).perms_at(a) == old(self).perms_at(a)
                    && final(self).byte_at(a) == old(self).byte_at(a),
            r is Ok ==> forall|a: int|
                #![trigger final(self).perms_at(a)]
                #![trigger final(self).byte_at(a)]
                base <= a < base + size ==> final(self).perms_at(a) == perms
                    && final(self).byte_at(a) == 0,
    {
        if size == 0 || base % PAGE_SIZE != 0 || size % PAGE_SIZE != 0 || base > u64::MAX - (size
            - 1) {
            return Err(Error::Arg);
        }
        if !self.free_range(base, size) {
            return Err(Error::MapConflict);
        }
        if size > usize::MAX as u64 {
            return Err(Error::NoMem);
        }
        let data = zeroed(size as usize);
        let ghost bytes = data@;
        self.insert_mapping(base, size, perms, data);
        proof {
            assert forall|a: int| base <= a < base + size implies #[trigger] self.perms_at(a) == perms
                && self.byte_at(a) == 0 by {
                assert(bytes[a - base] == 0);
            }
        }
        Ok(())
    }

    /// Maps `[base, base + size)` with permissions `perms`, backed by the
    /// caller's buffer `data`, which must hold exactly `size` bytes.
    pub fn map_ptr(&mut self, base: u64, size: u64, perms: Protection, data: Vec<u8>) -> (r: Result<(), Error>)
        requires
            old(self).wf(),
        ensures
            final(self).wf(),
            r == if data@.len() != size {
                Err(Error::Arg)
            } else {
                old(self).map_result(base, size)
            },
            r is Err ==> *final(self) == *old(self),
            r is Ok ==> forall|a: int|
                #[trigger] final(self).mapped(a) == (old(self).mapped(a) || base <= a < base
                    + size),
            r is Ok ==> forall|a: int| #[trigger]
                old(self).mapped(a) ==> final(self).perms_at(a) == old(self).perms_at(a)
                    && final(self).byte_at(a) == old(self).byte_at(a),
            r is Ok ==> forall|a: int|
                #![trigger final(self).perms_at(a)]
                #![trigger final(self).byte_at(a)]
                base <= a < base + size ==> final(self).perms_at(a) == perms
                    && final(self).byte_at(a) == data@[a - base],
    {
        if data.len() as u64 != size {
            return Err(Error::Arg);
        }
        if size == 0 || base % PAGE_SIZE != 0 || size % PAGE_SIZE != 0 || base > u64::MAX - (size
            - 1) {
            return Err(Error::Arg);
        }
        if !self.free_range(base, size) {
            return Err(Error::MapConflict);
        }
        let ghost bytes = data@;
        self.insert_mapping(base, size, perms, data);
        proof {
            assert forall|a: int| base <= a < base + size implies #[trigger] self.perms_at(a) == perms
                && self.byte_at(a) == bytes[a - base] by {
            }
        }
        Ok(())
    }

    /// Inserts the mapping `[base, base + size)` at its place in the table.
    fn insert_mapping(&mut self, base: u64, size: u64, perms: Protection, data: Vec<u8>)
        requires
            old(self).wf(),
            range_valid(base, size),
            !old(self).conflicts(base as int, size as int),
            data@.len() == size,
        ensures
            final(self).wf(),
            forall|a: int|
                #[trigger] final(self).mapped(a) == (old(self).mapped(a) || base <= a < base
                    + size),
            forall|a: int| #[trigger]
                old(self).mapped(a) ==> final(self).perms_at(a) == old(self).perms_at(a)
                    && final(self).byte_at(a) == old(self).byte_at(a),
            forall|a: int|
                #![trigger final(self).perms_at(a)]
                #![trigger final(self).byte_at(a)]
                base <= a < base + size ==> final(self).perms_at(a) == perms
                    && final(self).byte_at(a) == data@[a - base],
    {
        let end: u64 = base + (size - 1);
        proof {
            assert forall|j: int| 0 <= j < self.maps@.len() implies !overlaps(#[trigger] self.maps@[j], base as int, size as int) by {
                assert(self.table()[j] == self.maps@[j]);
            }
        }
        let mut pos: usize = 0;
        while pos < self.maps.len() && self.maps[pos].region.begin < base
            invariant
                pos <= self.maps@.len(),
                forall|j: int| 0 <= j < pos ==> (#[trigger] self.maps@[j]).region.begin < base,
            decreases self.maps@.len() - pos,
        {
            pos = pos + 1;
        }
        let ghost pre = *self;
        let m = Mapping { region: MemRegion { begin: base, end, perms }, data };
        self.maps.insert(pos, m);
        proof {
            let t = self.table();
            let o = pre.table();
            assert(forall|j: int| 0 <= j < pos ==> (#[trigger] o[j]).region.end < base);
            assert forall|j: int| pos <= j < o.len() implies (#[trigger] o[j]).region.begin > end by {
                if j > pos {
                    assert(o[pos as int].region.end < o[j].region.begin);
                }
            }
            assert(forall|j: int| 0 <= j < pos ==> t[j] == o[j]);
            assert(forall|j: int| pos < j < t.len() ==> t[j] == o[j - 1]);
            assert(t[pos as int] == m);
            assert forall|i: int, j: int| 0 <= i < j < t.len() implies #[trigger] t[i].region.end
                < #[trigger] t[j].region.begin by {
                if j < pos {
                    assert(o[i].region.end < o[j].region.begin);
                } else if j == pos {
                } else if i < pos {
                } else if i == pos {
                } else {
                    assert(o[i - 1].region.end < o[j - 1].region.begin);
                }
            }
            assert forall|i: int| 0 <= i < t.len() implies {
                let m = #[trigger] t[i];
                &&& m.region.begin <= m.region.end
                &&& (m.region.begin as int) % (PAGE_SIZE as int) == 0
                &&& (m.region.end + 1) % (PAGE_SIZE as int) == 0
                &&& m.data@.len() == m.region.end - m.region.begin + 1
            } by {
                if i < pos {
                    assert(t[i] == o[i]);
                } else if i > pos {
                    assert(t[i] == o[i - 1]);
                }
            }
            assert(self.wf());
            assert forall|a: int| #[trigger] self.mapped(a) == (pre.mapped(a) || base <= a < base
                + size) by {
                if pre.mapped(a) {
                    let i = pre.index_of(a);
                    if i < pos {
                        assert(covers(t[i], a));
                    } else {
                        assert(covers(t[i + 1], a));
                    }
                }
                if base <= a < base + size {
                    assert(covers(t[pos as int], a));
                }
                if self.mapped(a) {
                    let i = self.index_of(a);
                    if i < pos {
                        assert(covers(o[i], a));
                    } else if i > pos {
                        assert(covers(o[i - 1], a));
                    }
                }
            }
            assert forall|a: int| #[trigger] pre.mapped(a) implies self.perms_at(a) == pre.perms_at(a)
                && self.byte_at(a) == pre.byte_at(a) by {
                let i = pre.index_of(a);
                if i < pos {
                    self.lemma_index_of(i, a);
                } else {
                    self.lemma_index_of(i + 1, a);
                }
            }
            assert forall|a: int| base <= a < base + size implies #[trigger] self.perms_at(a) == perms
                && self.byte_at(a) == data@[a - base] by {
                self.lemma_index_of(pos as int, a);
            }
        }
    }

    /// The outcome that unmapping `[base, base + size)` has: the range must
    /// be mapped and start and end on region boundaries.
    pub open spec fn unmap_result(self, base: u64, size: u64) -> Result<(), Error> {
        if !range_valid(base, size) {
            Err(Error::Arg)
        } else if !self.span_mapped(base as int, size as int) {
            Err(Error::NoMem)
        } else if self.layout()[self.index_of(base as int)].begin != base
            || self.layout()[self.index_of(base + size - 1)].end != base + size - 1 {
            Err(Error::Arg)
        } else {
            Ok(())
        }
    }

    /// Unmaps `[base, base + size)`, which must be made of whole regions.
    pub fn unmap(&mut self, base: u64, size: u64) -> (r: Result<(), Error>)
        requires
            old(self).wf(),
        ensures
            final(self).wf(),
            r == old(self).unmap_result(base, size),
            r is Err ==> *final(self) == *old(self),
            r is Ok ==> forall|a: int|
                #[trigger] final(self).mapped(a) == (old(self).mapped(a) && !(base <= a < base
                    + size)),
            r is Ok ==> forall|a: int| #[trigger]
                final(self).mapped(a) ==> final(self).perms_at(a) == old(self).perms_at(a)
                    && final(self).byte_at(a) == old(self).byte_at(a),
    {
        if size == 0 || base % PAGE_SIZE != 0 || size % PAGE_SIZE != 0 || base > u64::MAX - (size
            - 1) {
            return Err(Error::Arg);
        }
        if !self.all_mapped(base, size) {
            return Err(Error::NoMem);
        }
        let hi: u64 = base + (size - 1);
        proof {
            assert(self.mapped(base + 0));
            assert(self.mapped(base + (size - 1)));
        }
        let first = match self.find(base) {
            Some(i) => i,
            None => {
                return Err(Error::NoMem);
            },
        };
        let last = match self.find(hi) {
            Some(i) => i,
            None => {
                return Err(Error::NoMem);
            },
        };
        if self.maps[first].region.begin != base || self.maps[last].region.end != hi {
            return Err(Error::Arg);
        }
        let ghost pre = *self;
        let ghost t = self.table();
        let n: usize = self.maps.len();
        let mut rest: Vec<Mapping> = Vec::new();
        std::mem::swap(&mut rest, &mut self.maps);
        let mut out: Vec<Mapping> = Vec::new();
        let ghost mut src: Seq<int> = Seq::empty();
        let ghost mut pos: Seq<int> = Seq::empty();
        let mut i: usize = 0;
        while rest.len() > 0
            invariant
                pre.wf(),
                t == pre.table(),
                hi == base + size - 1,
                t.len() == n,
                i <= t.len(),
                rest@ == t.subrange(i as int, t.len() as int),
                src.len() == out@.len(),
                pos.len() == i,
                forall|j1: int, j2: int|
                    0 <= j1 < j2 < out@.len() ==> #[trigger] out@[j1].region.end
                        < #[trigger] out@[j2].region.begin,
                forall|j: int|
                    0 <= j < out@.len() && i < t.len() ==> (#[trigger] out@[j]).region.end
                        < t[i as int].region.begin,
                forall|j: int|
                    0 <= j < out@.len() ==> 0 <= #[trigger] src[j] < i && out@[j] == t[src[j]]
                        && !(base <= t[src[j]].region.begin && t[src[j]].region.end <= hi),
                forall|k: int|
                    0 <= k < i && !(base <= t[k].region.begin && t[k].region.end <= hi) ==> 0
                        <= #[trigger] pos[k] < out@.len() && out@[pos[k]] == t[k],
            decreases rest@.len(),
        {
            let ghost before = out@;
            let m = rest.remove(0);
            assert(m == t[i as int]);
            let keep = !(base <= m.region.begin && m.region.end <= hi);
            if keep {
                out.push(m);
            }
            proof {
                if keep {
                    src = src.push(i as int);
                    pos = pos.push(before.len() as int);
                } else {
                    pos = pos.push(-1);
                }
                assert(forall|j: int| 0 <= j < before.len() ==> out@[j] == before[j]);
                if i + 1 < t.len() {
                    assert(t[i as int].region.end < t[i + 1].region.begin);
                }
                assert(rest@ =~= t.subrange(i + 1, t.len() as int));
            }
            i = i + 1;
        }
        self.maps = out;
        proof {
            assert(i == t.len());
            assert forall|j: int| 0 <= j < self.table().len() implies {
                let m = #[trigger] self.table()[j];
                &&& m.region.begin <= m.region.end
                &&& (m.region.begin as int) % (PAGE_SIZE as int) == 0
                &&& (m.region.end + 1) % (PAGE_SIZE as int) == 0
                &&& m.data@.len() == m.region.end - m.region.begin + 1
            } by {
                assert(self.table()[j] == t[src[j]]);
            }
            assert(self.wf());
            assert forall|a: int| #[trigger] self.mapped(a) == (pre.mapped(a) && !(base <= a < base
                + size)) by {
                if self.mapped(a) {
                    let j = self.index_of(a);
                    let k = src[j];
                    assert(covers(t[k], a));
                    if base <= a <= hi {
                        if t[k].region.begin < base {
                            pre.lemma_index_of(k, base as int);
                        } else {
                            pre.lemma_index_of(k, hi as int);
                        }
                    }
                }
                if pre.mapped(a) && !(base <= a < base + size) {
                    let k = pre.index_of(a);
                    assert(covers(self.table()[pos[k]], a));
                }
            }
            assert forall|a: int| #[trigger] self.mapped(a) implies self.perms_at(a)
                == pre.perms_at(a) && self.byte_at(a) == pre.byte_at(a) by {
                let j = self.index_of(a);
                let k = src[j];
                pre.lemma_index_of(k, a);
            }
        }
        Ok(())
    }

    /// Whether every address of `[addr, addr + len)` is mapped.
    fn all_mapped(&self, addr: u64, len: u64) -> (r: bool)
        requires
            self.wf(),
        ensures
            r == self.span_mapped(addr as int, len as int),
    {
        let mut k: u64 = 0;
        while k < len
            invariant
                self.wf(),
                k <= len,
                forall|j: int| 0 <= j < k ==> #[trigger] self.mapped(addr + j),
            decreases len - k,
        {
            if addr > u64::MAX - k {
                proof {
                    if self.mapped(addr + k) {
                        self.lemma_mapped_bound(addr + k);
                    }
                }
                return false;
            }
            if self.find(addr + k).is_none() {
                return false;
            }
            k = k + 1;
        }
        true
    }

    /// The outcome that re-protecting `[base, base + size)` has.
    pub open spec fn protect_result(self, base: u64, size: u64) -> Result<(), Error> {
        if !range_valid(base, size) {
            Err(Error::Arg)
        } else if !self.span_mapped(base as int, size as int) {
            Err(Error::NoMem)
        } else {
            Ok(())
        }
    }

    /// Gives `[base, base + size)` the permissions `perms`; regions that the
    /// range cuts are split at its bounds.
    pub fn protect(&mut self, base: u64, size: u64, perms: Protection) -> (r: Result<(), Error>)
        requires
            old(self).wf(),
        ensures
            final(self).wf(),
            r == old(self).protect_result(base, size),
            r is Err ==> *final(self) == *old(self),
            forall|a: int| #[trigger] final(self).mapped(a) == old(self).mapped(a),
            r is Ok ==> forall|a: int| #[trigger]
                old(self).mapped(a) ==> final(self).byte_at(a) == old(self).byte_at(a)
                    && final(self).perms_at(a) == if base <= a < base + size {
                    perms
                } else {
                    old(self).perms_at(a)
                },
    {
        if size == 0 || base % PAGE_SIZE != 0 || size % PAGE_SIZE != 0 || base > u64::MAX - (size
            - 1) {
            return Err(Error::Arg);
        }
        if !self.all_mapped(base, size) {
            return Err(Error::NoMem);
        }
        let hi: u64 = base + (size - 1);
        let ghost t = self.table();
        let ghost pre = *self;
        let mut out: Vec<Mapping> = Vec::new();
        let mut i: usize = 0;
        while i < self.maps.len()
            invariant
                self.wf(),
                t == self.table(),
                hi == base + size - 1,
                size > 0,
                base % PAGE_SIZE == 0,
                (hi + 1) % (PAGE_SIZE as int) == 0,
                i <= t.len(),
                forall|j: int|
                    0 <= j < out@.len() ==> {
                        let p = #[trigger] out@[j];
                        &&& p.region.begin <= p.region.end
                        &&& (p.region.begin as int) % (PAGE_SIZE as int) == 0
                        &&& (p.region.end + 1) % (PAGE_SIZE as int) == 0
                        &&& p.data@.len() == p.region.end - p.region.begin + 1
                    },
                forall|j1: int, j2: int|
                    0 <= j1 < j2 < out@.len() ==> #[trigger] out@[j1].region.end
                        < #[trigger] out@[j2].region.begin,
                forall|j: int|
                    0 <= j < out@.len() && i < t.len() ==> (#[trigger] out@[j]).region.end
                        < t[i as int].region.begin,
                forall|j: int|
                    0 <= j < out@.len() ==> exists|k: int|
                        0 <= k < i && piece_of(#[trigger] out@[j], #[trigger] t[k]) && (if base
                            <= out@[j].region.begin && out@[j].region.end <= hi {
                            out@[j].region.perms == perms
                        } else {
                            out@[j].region.end < base || hi < out@[j].region.begin
                        } && (out@[j].region.end < base || hi < out@[j].region.begin
                            ==> out@[j].region.perms == t[k].region.perms)),
                forall|k: int, a: int|
                    0 <= k < i && covers(#[trigger] t[k], a) ==> #[trigger] seq_mapped(out@, a),
            decreases t.len() - i,
        {
            let m = &self.maps[i];
            let mb = m.region.begin;
            let me = m.region.end;
            let ghost before = out@;
            assert(t[i as int].region.begin <= t[i as int].region.end);
            if me < base || hi < mb {
                let q = piece(m, mb, me, m.region.perms);
                out.push(q);
                proof {
                    assert forall|a: int| covers(t[i as int], a) implies #[trigger] seq_mapped(out@, a) by {
                        assert(covers(out@[before.len() as int], a));
                    }
                }
            } else {
                let lo: u64 = if mb < base { base } else { mb };
                let up: u64 = if me < hi { me } else { hi };
                if mb < lo {
                    let q = piece(m, mb, lo - 1, m.region.perms);
                    out.push(q);
                }
                let ghost mid = out@.len();
                let q = piece(m, lo, up, perms);
                out.push(q);
                if up < me {
                    let q = piece(m, up + 1, me, m.region.perms);
                    out.push(q);
                }
                proof {
                    assert forall|a: int| covers(t[i as int], a) implies #[trigger] seq_mapped(out@, a) by {
                        if a < lo {
                            assert(covers(out@[before.len() as int], a));
                        } else if a <= up {
                            assert(covers(out@[mid as int], a));
                        } else {
                            assert(covers(out@[mid as int + 1], a));
                        }
                    }
                }
            }
            proof {
                let n0 = before.len() as int;
                assert(forall|j: int| 0 <= j < n0 ==> out@[j] == before[j]);
                assert forall|k: int, a: int| 0 <= k < i + 1 && covers(#[trigger] t[k], a) implies #[trigger] seq_mapped(out@, a) by {
                    if k < i {
                        assert(seq_mapped(before, a));
                        let j = choose|j: int| 0 <= j < before.len() && covers(#[trigger] before[j], a);
                        assert(out@[j] == before[j]);
                    }
                }
            }
            i = i + 1;
        }
        self.maps = out;
        proof {
            assert(self.wf());
            assert forall|a: int| #[trigger] self.mapped(a) == pre.mapped(a) by {
                if self.mapped(a) {
                    let j = self.index_of(a);
                    let k = choose|k: int| 0 <= k < i && piece_of(#[trigger] self.table()[j], #[trigger] t[k]) && (if base
                            <= self.table()[j].region.begin && self.table()[j].region.end <= hi {
                            self.table()[j].region.perms == perms
                        } else {
                            self.table()[j].region.end < base || hi < self.table()[j].region.begin
                        } && (self.table()[j].region.end < base || hi < self.table()[j].region.begin
                            ==> self.table()[j].region.perms == t[k].region.perms));
                    assert(covers(t[k], a));
                }
                if pre.mapped(a) {
                    let k = pre.index_of(a);
                    assert(seq_mapped(self.table(), a));
                }
            }
            assert forall|a: int| #[trigger] pre.mapped(a) implies self.byte_at(a) == pre.byte_at(a)
                && self.perms_at(a) == if base <= a < base + size {
                perms
            } else {
                pre.perms_at(a)
            } by {
                assert(self.mapped(a));
                let j = self.index_of(a);
                let p = self.table()[j];
                let k = choose|k: int| 0 <= k < i && piece_of(#[trigger] self.table()[j], #[trigger] t[k]) && (if base
                        <= p.region.begin && p.region.end <= hi {
                        p.region.perms == perms
                    } else {
                        p.region.end < base || hi < p.region.begin
                    } && (p.region.end < base || hi < p.region.begin
                        ==> p.region.perms == t[k].region.perms));
                assert(covers(t[k], a));
                pre.lemma_index_of(k, a);
                assert(p.data@[a - p.region.begin] == t[k].data@[a - t[k].region.begin]);
            }
        }
        Ok(())
    }

    /// The current regions, sorted by base address and pairwise disjoint.
    pub fn regions(&self) -> (r: Vec<MemRegion>)
        requires
            self.wf(),
        ensures
            r@ == self.layout(),
    {
        let mut out: Vec<MemRegion> = Vec::new();
        let mut i: usize = 0;
        while i < self.maps.len()
            invariant
                i <= self.maps@.len(),
                out@ == self.layout().take(i as int),
            decreases self.maps@.len() - i,
        {
            out.push(self.maps[i].region);
            i = i + 1;
            assert(out@ =~= self.layout().take(i as int));
        }
        assert(self.layout().take(self.maps@.len() as int) =~= self.layout());
        out
    }
}

} // verus!
