//! Trusted boundary to the stable-structures crate: the durable memory block,
//! the segment allocator that partitions it, the persisted scalar cell, and
//! the persisted ordered map. Everything else in this crate is verified
//! against the contracts stated here.
//!
//! The crate's own types cannot be declared to the verifier because their
//! bounds name the crate's `Storable` and `Memory` traits, so each is held in
//! a private field of an opaque struct here.

use vstd::prelude::*;
use ic_stable_structures::memory_manager::{MemoryId, MemoryManager, VirtualMemory};
use ic_stable_structures::{DefaultMemoryImpl, StableBTreeMap, StableCell};

verus! {

/// One durable memory block, the whole persistent address space.
#[verifier::external_body]
pub struct MemoryBlock {
    inner: DefaultMemoryImpl,
}

/// Partitions one durable memory block into up to 255 independently growable
/// segments, each addressable by a small integer tag.
#[verifier::external_body]
pub struct SegmentAllocator {
    inner: MemoryManager<DefaultMemoryImpl>,
}

/// One segment of the durable memory block.
#[verifier::external_body]
pub struct Segment {
    inner: VirtualMemory<DefaultMemoryImpl>,
}

/// A persisted 64-bit scalar living in one segment.
#[verifier::external_body]
pub struct RawCell {
    inner: StableCell<u64, VirtualMemory<DefaultMemoryImpl>>,
}

/// A persisted ordered map from a 64-bit identifier to record bytes, living
/// in one segment.
#[verifier::external_body]
pub struct RawMap {
    inner: StableBTreeMap<u64, Vec<u8>, VirtualMemory<DefaultMemoryImpl>>,
}

/// The value a persisted scalar cell currently holds.
pub uninterp spec fn cell_value(c: RawCell) -> u64;

/// The entries a persisted ordered map currently holds.
pub uninterp spec fn map_entries(m: RawMap) -> Map<u64, Seq<u8>>;

/// Relies on `DefaultMemoryImpl::default`: a fresh, empty memory block.
#[verifier::external_body]
pub fn fresh_memory() -> MemoryBlock {
    MemoryBlock { inner: DefaultMemoryImpl::default() }
}

/// Relies on `MemoryManager::init`: takes sole charge of one memory block and
/// partitions it into independently growable virtual memories.
#[verifier::external_body]
pub fn allocator_init(memory: MemoryBlock) -> SegmentAllocator {
    SegmentAllocator { inner: MemoryManager::init(memory.inner) }
}

/// Relies on `MemoryManager::get`: hands out the virtual memory bound to the
/// given tag. Distinct tags yield non-overlapping memories, and the binding
/// of tag to memory is itself persisted; `MemoryId::new` rejects tag 255.
#[verifier::external_body]
pub fn allocator_get(alloc: &SegmentAllocator, tag: u8) -> Segment
    requires
        tag < 255,
{
    Segment { inner: alloc.inner.get(MemoryId::new(tag)) }
}

/// Relies on `Cell::new`: writes `value` to the segment, overwriting any
/// previous contents, and returns a cell holding it.
#[verifier::external_body]
pub fn cell_new(segment: Segment, value: u64) -> (c: RawCell)
    ensures
        cell_value(c) == value,
{
    RawCell { inner: StableCell::new(segment.inner, value) }
}

/// Relies on `Cell::get`: returns the value the cell holds.
#[verifier::external_body]
pub fn cell_get(c: &RawCell) -> (r: u64)
    ensures
        r == cell_value(*c),
{
    *c.inner.get()
}

/// Relies on `Cell::set`: persists `value` in the cell's segment before
/// returning, and returns the previous value.
#[verifier::external_body]
pub fn cell_set(c: &mut RawCell, value: u64) -> (prev: u64)
    ensures
        cell_value(*final(c)) == value,
        prev == cell_value(*old(c)),
{
    c.inner.set(value)
}

/// Relies on `BTreeMap::new`: writes a fresh, empty map to the segment,
/// overwriting any previous contents.
#[verifier::external_body]
pub fn map_new(segment: Segment) -> (m: RawMap)
    ensures
        map_entries(m) =~= Map::empty(),
        map_entries(m).dom().finite(),
{
    RawMap { inner: StableBTreeMap::new(segment.inner) }
}

/// Relies on `BTreeMap::get`: returns the value stored under the key, if any.
#[verifier::external_body]
pub fn map_get(m: &RawMap, key: u64) -> (r: Option<Vec<u8>>)
    ensures
        match r {
            Some(v) => map_entries(*m).contains_key(key) && v@ == map_entries(*m)[key],
            None => !map_entries(*m).contains_key(key),
        },
{
    m.inner.get(&key)
}

/// Relies on `BTreeMap::insert`: persists the pair in the map's segment
/// before returning, and returns the previous value under the key, if any.
#[verifier::external_body]
pub fn map_insert(m: &mut RawMap, key: u64, value: Vec<u8>) -> (prev: Option<Vec<u8>>)
    ensures
        map_entries(*final(m)) == map_entries(*old(m)).insert(key, value@),
        match prev {
            Some(v) => map_entries(*old(m)).contains_key(key) && v@ == map_entries(*old(m))[key],
            None => !map_entries(*old(m)).contains_key(key),
        },
{
    m.inner.insert(key, value)
}

/// Relies on `BTreeMap::remove`: removes the key from the map's segment and
/// returns the value that was stored under it, if any.
#[verifier::external_body]
pub fn map_remove(m: &mut RawMap, key: u64) -> (prev: Option<Vec<u8>>)
    ensures
        map_entries(*final(m)) == map_entries(*old(m)).remove(key),
        match prev {
            Some(v) => map_entries(*old(m)).contains_key(key) && v@ == map_entries(*old(m))[key],
            None => !map_entries(*old(m)).contains_key(key),
        },
{
    m.inner.remove(&key)
}

/// Relies on `BTreeMap::iter`: one full pass over the current entries, in
/// ascending key order; `LazyEntry::into_pair` hands each entry out as an
/// owned pair.
#[verifier::external_body]
pub fn map_pairs(m: &RawMap) -> (r: Vec<(u64, Vec<u8>)>)
    ensures
        forall|i: int|
            0 <= i < r@.len() ==> map_entries(*m).contains_key(r@[i].0) && r@[i].1@ == map_entries(
                *m,
            )[r@[i].0],
        forall|i: int, j: int| 0 <= i < j < r@.len() ==> r@[i].0 < r@[j].0,
        forall|k: u64| #[trigger]
            map_entries(*m).contains_key(k) ==> exists|i: int| 0 <= i < r@.len() && r@[i].0 == k,
{
    let mut out = Vec::new();
    for e in m.inner.iter() {
        out.push(e.into_pair());
    }
    out
}

} // verus!
