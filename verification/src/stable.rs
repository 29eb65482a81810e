//! The stable structures that hold the catalog's durable state.
//!
//! The identifier counter lives in a stable cell and the stored records in a stable
//! B-tree map, each in a region of its own that a memory manager hands out. The
//! functions of this module call into `ic_stable_structures`; their contracts are
//! taken from that crate's documentation and are not proved here. A write that
//! needs more stable memory than can be had aborts inside that crate, as an
//! allocation that fails does.

use ic_stable_structures::cell::{InitError, ValueError};
use ic_stable_structures::memory_manager::{MemoryId, MemoryManager, VirtualMemory};
use ic_stable_structures::storable::Blob;
use ic_stable_structures::{Cell, DefaultMemoryImpl, StableBTreeMap};
use vstd::prelude::*;

verus! {

/// `ic_stable_structures::cell::InitError`: why a cell could not be initialised.
#[verifier::external_type_specification]
#[verifier::external_body]
pub struct ExInitError(InitError);

/// `ic_stable_structures::cell::ValueError`: why a cell could not take a value.
#[verifier::external_type_specification]
#[verifier::external_body]
pub struct ExValueError(ValueError);

/// A `MemoryManager` over the default memory: the stable memory of a canister, a
/// vector elsewhere.
#[verifier::external_body]
pub struct StableMemory {
    manager: MemoryManager<DefaultMemoryImpl>,
}

/// One `VirtualMemory` of a [`StableMemory`].
#[verifier::external_body]
pub struct Region {
    memory: VirtualMemory<DefaultMemoryImpl>,
}

/// A stable `Cell` that holds the identifier counter.
#[verifier::external_body]
pub struct IdCell {
    cell: Cell<u64, VirtualMemory<DefaultMemoryImpl>>,
}

/// A `StableBTreeMap` from identifiers to stored records of at most 1024 bytes.
#[verifier::external_body]
pub struct RecordMap {
    map: StableBTreeMap<u64, Blob<1024>, VirtualMemory<DefaultMemoryImpl>>,
}

/// The value that a cell holds.
pub uninterp spec fn cell_value(cell: IdCell) -> u64;

/// The entries that a map holds.
pub uninterp spec fn map_contents(map: RecordMap) -> Map<u64, Seq<u8>>;

/// `entries` lists `contents` in ascending order of the keys, each key once.
pub open spec fn lists(entries: Seq<(u64, Vec<u8>)>, contents: Map<u64, Seq<u8>>) -> bool {
    &&& forall|i: int, j: int|
        0 <= i < j < entries.len() ==> (#[trigger] entries[i]).0 < (#[trigger] entries[j]).0
    &&& forall|i: int|
        0 <= i < entries.len() ==> contents.contains_key((#[trigger] entries[i]).0)
            && contents[entries[i].0] == entries[i].1@
    &&& forall|key: u64| #[trigger]
        contents.contains_key(key) ==> exists|i: int|
            0 <= i < entries.len() && (#[trigger] entries[i]).0 == key
}

/// `MemoryManager::init` on `DefaultMemoryImpl::default()`: the manager of the
/// default memory. Nothing is claimed of what that memory holds. It aborts where
/// the memory holds a manager of another layout.
#[verifier::external_body]
pub(crate) fn default_memory() -> StableMemory {
    StableMemory { manager: MemoryManager::init(DefaultMemoryImpl::default()) }
}

/// `MemoryManager::get` with `MemoryId::new(id)`: the region of that number. The
/// number 255 is reserved by the manager and is left out.
#[verifier::external_body]
pub(crate) fn region(memory: &StableMemory, id: u8) -> Region
    requires
        id != 255,
{
    Region { memory: memory.manager.get(MemoryId::new(id)) }
}

/// `Cell::init`: the cell that the region holds, or a new one with the value
/// `default` where it holds none. Nothing is claimed of the value. It aborts where
/// the region holds a cell whose value is no eight-byte integer.
#[verifier::external_body]
pub(crate) fn cell_init(region: Region, default: u64) -> Result<IdCell, InitError> {
    Cell::init(region.memory, default).map(|cell| IdCell { cell })
}

/// `Cell::get`: the value of the cell.
#[verifier::external_body]
pub(crate) fn cell_get(cell: &IdCell) -> (value: u64)
    ensures
        value == cell_value(*cell),
{
    *cell.cell.get()
}

/// `Cell::set`: on success the cell holds `value` and the value it held before is
/// returned; on failure the cell is unchanged.
#[verifier::external_body]
pub(crate) fn cell_set(cell: &mut IdCell, value: u64) -> (outcome: Result<u64, ValueError>)
    ensures
        outcome is Ok ==> cell_value(*final(cell)) == value && outcome.unwrap() == cell_value(
            *old(cell),
        ),
        outcome is Err ==> cell_value(*final(cell)) == cell_value(*old(cell)),
{
    cell.cell.set(value)
}

/// `StableBTreeMap::init`: the map that the region holds, or an empty one where it
/// holds none. Nothing is claimed of the entries. It aborts where the region holds
/// a map of another layout.
#[verifier::external_body]
pub(crate) fn map_init(region: Region) -> RecordMap {
    RecordMap { map: StableBTreeMap::init(region.memory) }
}

/// `StableBTreeMap::get`: the value stored under `key`, if there is one.
#[verifier::external_body]
pub(crate) fn map_get(map: &RecordMap, key: u64) -> (value: Option<Vec<u8>>)
    ensures
        value is Some <==> map_contents(*map).contains_key(key),
        value is Some ==> value.unwrap()@ == map_contents(*map)[key],
{
    map.map.get(&key).map(|blob| blob.as_slice().to_vec())
}

/// `StableBTreeMap::insert`: afterwards `key` maps to `value` and every other key
/// is as before; the value that `key` mapped to before, if any, is returned. A
/// value of more than 1024 bytes is no `Blob<1024>` and is left out.
#[verifier::external_body]
pub(crate) fn map_insert(map: &mut RecordMap, key: u64, value: &Vec<u8>) -> (previous: Option<
    Vec<u8>,
>)
    requires
        value.len() <= 1024,
    ensures
        map_contents(*final(map)) == map_contents(*old(map)).insert(key, value@),
        previous is Some <==> map_contents(*old(map)).contains_key(key),
        previous is Some ==> previous.unwrap()@ == map_contents(*old(map))[key],
{
    let blob = Blob::try_from(value.as_slice()).unwrap();
    map.map.insert(key, blob).map(|blob| blob.as_slice().to_vec())
}

/// `StableBTreeMap::remove`: afterwards `key` is absent and every other key is as
/// before; the value that `key` mapped to before, if any, is returned.
#[verifier::external_body]
pub(crate) fn map_remove(map: &mut RecordMap, key: u64) -> (previous: Option<Vec<u8>>)
    ensures
        map_contents(*final(map)) == map_contents(*old(map)).remove(key),
        previous is Some <==> map_contents(*old(map)).contains_key(key),
        previous is Some ==> previous.unwrap()@ == map_contents(*old(map))[key],
{
    map.map.remove(&key).map(|blob| blob.as_slice().to_vec())
}

/// `StableBTreeMap::iter`, collected: every entry of the map, in ascending order
/// of the keys.
#[verifier::external_body]
pub(crate) fn map_entries(map: &RecordMap) -> (entries: Vec<(u64, Vec<u8>)>)
    ensures
        lists(entries@, map_contents(*map)),
{
    map.map.iter().map(|(key, blob)| (key, blob.as_slice().to_vec())).collect()
}

} // verus!
