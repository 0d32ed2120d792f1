use unicorn::error::Error;
use unicorn::memory::{Access, MemRegion, Memory, Protection};

const RWX: Protection = Protection { read: true, write: true, execute: true };
const RO: Protection = Protection { read: true, write: false, execute: false };

#[test]
fn write_then_read_round_trips() {
    let mut m = Memory::new();
    assert_eq!(m.map(0x1000, 0x1000, RWX), Ok(()));
    assert_eq!(m.write(0x1000, &[1, 2, 3, 4]), Ok(()));
    assert_eq!(m.read(0x1000, 4), Ok(vec![1, 2, 3, 4]));
}

#[test]
fn write_to_read_only_is_refused_and_memory_unchanged() {
    let mut m = Memory::new();
    assert_eq!(m.map(0x1000, 0x1000, RO), Ok(()));
    assert_eq!(m.write(0x1000, &[9, 9, 9, 9]), Err(Error::WriteProt));
    assert_eq!(m.read(0x1000, 4), Ok(vec![0, 0, 0, 0]));
}

#[test]
fn access_outside_regions_is_unmapped() {
    let mut m = Memory::new();
    assert_eq!(m.map(0x1000, 0x1000, RWX), Ok(()));
    assert_eq!(m.read(0x3000, 1), Err(Error::ReadUnmapped));
    assert_eq!(m.write(0x0, &[1]), Err(Error::WriteUnmapped));
    assert_eq!(m.check(0x2000, 1, Access::Fetch), Err(Error::FetchUnmapped));
    // a span that leaves the region is unmapped too
    assert_eq!(m.read(0x1ffe, 4), Err(Error::ReadUnmapped));
}

#[test]
fn access_kinds_follow_permissions() {
    let mut m = Memory::new();
    let wo = Protection { read: false, write: true, execute: false };
    assert_eq!(m.map(0x4000, 0x1000, wo), Ok(()));
    assert_eq!(m.read(0x4000, 2), Err(Error::ReadProt));
    assert_eq!(m.check(0x4000, 2, Access::Fetch), Err(Error::FetchProt));
    assert_eq!(m.write(0x4000, &[7, 8]), Ok(()));
}

#[test]
fn overlapping_map_is_refused_and_layout_kept() {
    let mut m = Memory::new();
    assert_eq!(m.map(0x1000, 0x2000, RWX), Ok(()));
    let before = m.regions();
    assert_eq!(m.map(0x2000, 0x1000, RO), Err(Error::MapConflict));
    assert_eq!(m.map(0x0, 0x2000, RO), Err(Error::MapConflict));
    assert_eq!(m.regions(), before);
}

#[test]
fn misaligned_or_empty_map_is_refused() {
    let mut m = Memory::new();
    assert_eq!(m.map(0x1001, 0x1000, RWX), Err(Error::Arg));
    assert_eq!(m.map(0x1000, 0x800, RWX), Err(Error::Arg));
    assert_eq!(m.map(0x1000, 0, RWX), Err(Error::Arg));
    assert_eq!(m.map(0xffff_ffff_ffff_f000, 0x2000, RWX), Err(Error::Arg));
    assert!(m.regions().is_empty());
}

#[test]
fn regions_are_sorted_by_base() {
    let mut m = Memory::new();
    assert_eq!(m.map(0x5000, 0x1000, RO), Ok(()));
    assert_eq!(m.map(0x1000, 0x2000, RWX), Ok(()));
    assert_eq!(
        m.regions(),
        vec![
            MemRegion { begin: 0x1000, end: 0x2fff, perms: RWX },
            MemRegion { begin: 0x5000, end: 0x5fff, perms: RO },
        ]
    );
}

#[test]
fn access_spanning_adjacent_regions() {
    let mut m = Memory::new();
    assert_eq!(m.map(0x1000, 0x1000, RWX), Ok(()));
    assert_eq!(m.map(0x2000, 0x1000, RWX), Ok(()));
    assert_eq!(m.write(0x1ffe, &[1, 2, 3, 4]), Ok(()));
    assert_eq!(m.read(0x1ffe, 4), Ok(vec![1, 2, 3, 4]));
    assert_eq!(m.read(0x2000, 2), Ok(vec![3, 4]));
}

#[test]
fn unmap_needs_an_exact_region() {
    let mut m = Memory::new();
    assert_eq!(m.map(0x1000, 0x2000, RWX), Ok(()));
    assert_eq!(m.unmap(0x1000, 0x1000), Err(Error::Arg));
    assert_eq!(m.unmap(0x1000, 0x2000), Ok(()));
    assert!(m.regions().is_empty());
    assert_eq!(m.read(0x1000, 1), Err(Error::ReadUnmapped));
}

#[test]
fn protect_splits_regions() {
    let mut m = Memory::new();
    assert_eq!(m.map(0x1000, 0x3000, RWX), Ok(()));
    assert_eq!(m.write(0x2000, &[5, 6]), Ok(()));
    assert_eq!(m.protect(0x2000, 0x1000, RO), Ok(()));
    assert_eq!(
        m.regions(),
        vec![
            MemRegion { begin: 0x1000, end: 0x1fff, perms: RWX },
            MemRegion { begin: 0x2000, end: 0x2fff, perms: RO },
            MemRegion { begin: 0x3000, end: 0x3fff, perms: RWX },
        ]
    );
    assert_eq!(m.read(0x2000, 2), Ok(vec![5, 6]));
    assert_eq!(m.write(0x2000, &[1]), Err(Error::WriteProt));
    assert_eq!(m.write(0x3000, &[1]), Ok(()));
}

#[test]
fn protect_needs_mapped_aligned_range() {
    let mut m = Memory::new();
    assert_eq!(m.map(0x1000, 0x1000, RWX), Ok(()));
    assert_eq!(m.protect(0x1000, 0x2000, RO), Err(Error::NoMem));
    assert_eq!(m.protect(0x1800, 0x1000, RO), Err(Error::Arg));
    assert_eq!(m.regions(), vec![MemRegion { begin: 0x1000, end: 0x1fff, perms: RWX }]);
}

#[test]
fn unmap_of_adjacent_regions() {
    let mut m = Memory::new();
    assert_eq!(m.map(0x1000, 0x3000, RWX), Ok(()));
    assert_eq!(m.protect(0x2000, 0x1000, RO), Ok(()));
    assert_eq!(m.unmap(0x1000, 0x2000), Ok(()));
    assert_eq!(m.regions(), vec![MemRegion { begin: 0x3000, end: 0x3fff, perms: RWX }]);
    assert_eq!(m.unmap(0x5000, 0x1000), Err(Error::NoMem));
}

#[test]
fn map_ptr_uses_the_given_bytes() {
    let mut m = Memory::new();
    let mut buf = vec![0u8; 0x1000];
    buf[0] = 0xaa;
    buf[0xfff] = 0xbb;
    assert_eq!(m.map_ptr(0x8000, 0x1000, RO, buf), Ok(()));
    assert_eq!(m.read(0x8000, 1), Ok(vec![0xaa]));
    assert_eq!(m.read(0x8fff, 1), Ok(vec![0xbb]));
    assert_eq!(m.map_ptr(0x9000, 0x1000, RO, vec![0u8; 10]), Err(Error::Arg));
    assert_eq!(m.map_ptr(0x8000, 0x1000, RO, vec![0u8; 0x1000]), Err(Error::MapConflict));
}
