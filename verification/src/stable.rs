//! The boundary to stable memory.
//!
//! Everything durable in this crate lives in B-tree maps from `u64` keys to
//! byte strings, kept in stable memory by `ic_stable_structures`. The B-tree
//! itself is not verified here: this module states, for each operation the
//! crate uses, what the operation does to the map's contents, and the rest of
//! the crate is proved against those statements.
//!
//! A table needs its region for itself. So a pool is given up for its
//! regions, each region is handed out once, and a table takes its region by
//! value and gives it back only when it is given up itself: no two tables
//! of one pool share a region.
//!
//! The statements further assume that a region holds nothing or what the
//! B-tree wrote there, and that stable memory can still grow when a table
//! needs room. Where one of these fails the B-tree panics, and nothing here
//! says otherwise.
use ic_stable_structures::memory_manager::MemoryId;
use ic_stable_structures::memory_manager::MemoryManager;
use ic_stable_structures::memory_manager::VirtualMemory;
use ic_stable_structures::DefaultMemoryImpl;
use ic_stable_structures::StableBTreeMap;
use vstd::prelude::*;

verus! {

/// The highest region number a pool hands out.
pub const MAX_REGION: u8 = 254;

/// The longest value that a table stores, in bytes: the B-tree writes the
/// length of a value in four bytes.
pub const MAX_VALUE_LEN: u64 = 0xFFFF_FFFF;

/// A memory manager over the default stable memory: it divides that memory
/// into numbered regions that grow independently.
#[verifier::external_body]
pub struct MemoryPool {
    inner: MemoryManager<DefaultMemoryImpl>,
}

/// One numbered region of a [`MemoryPool`]. It is no copy: whoever holds it
/// holds the region.
#[verifier::external_body]
pub struct Region {
    inner: VirtualMemory<DefaultMemoryImpl>,
}

/// A durable map from `u64` keys to byte strings: a stable B-tree map whose
/// contents Verus sees only through [`table_rows`].
#[verifier::external_body]
pub struct Table {
    inner: StableBTreeMap<u64, Vec<u8>, VirtualMemory<DefaultMemoryImpl>>,
}

/// The key-value pairs that a table holds.
pub uninterp spec fn table_rows(t: Table) -> Map<u64, Seq<u8>>;

/// `out` lists `rows` in ascending key order: every entry of `out` is a pair
/// of `rows`, the keys strictly increase, and no key of `rows` is missing.
pub open spec fn lists_rows(rows: Map<u64, Seq<u8>>, out: Seq<(u64, Vec<u8>)>) -> bool {
    &&& forall|i: int|
        0 <= i < out.len() ==> rows.contains_key(#[trigger] out[i].0) && rows[out[i].0]
            == out[i].1@
    &&& forall|i: int, j: int| 0 <= i < j < out.len() ==> (#[trigger] out[i]).0 < (#[trigger] out[j]).0
    &&& forall|k: u64| #[trigger]
        rows.contains_key(k) ==> exists|i: int| 0 <= i < out.len() && (#[trigger] out[i]).0 == k
}

/// What a region holds: the key-value pairs of the map that is loaded from
/// it, and no pairs where it holds no map.
pub uninterp spec fn region_rows(r: Region) -> Map<u64, Seq<u8>>;

/// `MemoryManager::init` on `DefaultMemoryImpl::default()`. Nothing is
/// claimed of the pool: what its regions hold depends on the memory behind it.
#[verifier::external_body]
pub(crate) fn pool_open() -> (pool: MemoryPool) {
    MemoryPool { inner: MemoryManager::init(DefaultMemoryImpl::default()) }
}

/// `MemoryManager::get`, three times, on a pool that is given up: the
/// regions with the three numbers, which differ, so that each region of the
/// pool is handed out at most once. The number 255 is reserved by the
/// manager and is left out. Nothing is claimed of what the regions hold.
#[verifier::external_body]
pub(crate) fn pool_split(pool: MemoryPool, first: u8, second: u8, third: u8) -> (regions: (
    Region,
    Region,
    Region,
))
    requires
        first <= MAX_REGION,
        second <= MAX_REGION,
        third <= MAX_REGION,
        first != second,
        first != third,
        second != third,
{
    (
        Region { inner: pool.inner.get(MemoryId::new(first)) },
        Region { inner: pool.inner.get(MemoryId::new(second)) },
        Region { inner: pool.inner.get(MemoryId::new(third)) },
    )
}

impl MemoryPool {
    /// The pool over the default stable memory. A canister opens it once:
    /// on the canister's memory a second pool would be over the same
    /// regions.
    pub fn open() -> (pool: MemoryPool) {
        pool_open()
    }

    /// Gives the pool up for three of its regions, with three numbers that
    /// differ. No region can be had from the pool a second time.
    pub fn split(self, first: u8, second: u8, third: u8) -> (regions: (Region, Region, Region))
        requires
            first <= MAX_REGION,
            second <= MAX_REGION,
            third <= MAX_REGION,
            first != second,
            first != third,
            second != third,
    {
        pool_split(self, first, second, third)
    }
}

/// `StableBTreeMap::new`: takes the region for the new map alone and writes
/// a fresh map into it, whatever the region held before. The claim: the new
/// map is empty.
#[verifier::external_body]
pub(crate) fn table_new(region: Region) -> (t: Table)
    ensures
        table_rows(t) =~= Map::empty(),
{
    Table { inner: StableBTreeMap::new(region.inner) }
}

/// `StableBTreeMap::init`: takes the region for the map alone, and loads the
/// map that the region holds, or writes a fresh one where it holds none. The
/// claim: the map holds what the region held.
#[verifier::external_body]
pub(crate) fn table_open(region: Region) -> (t: Table)
    ensures
        table_rows(t) == region_rows(region),
{
    Table { inner: StableBTreeMap::init(region.inner) }
}

/// `StableBTreeMap::into_memory`: gives the map up for its region. The
/// claim: the region holds what the map held, since the map writes every
/// change through to its memory.
#[verifier::external_body]
pub(crate) fn table_close(t: Table) -> (region: Region)
    ensures
        region_rows(region) == table_rows(t),
{
    Region { inner: t.inner.into_memory() }
}

/// `StableBTreeMap::get`. The claim: the result is the value stored under
/// `key`, and `None` exactly when the key is absent; a stored value is no
/// longer than the B-tree can write.
#[verifier::external_body]
pub(crate) fn table_get(t: &Table, key: u64) -> (r: Option<Vec<u8>>)
    ensures
        r.is_some() == table_rows(*t).contains_key(key),
        r.is_some() ==> r.unwrap()@ == table_rows(*t)[key],
        r.is_some() ==> r.unwrap()@.len() <= MAX_VALUE_LEN,
{
    t.inner.get(&key)
}

/// `StableBTreeMap::insert`, for a value whose length the B-tree can write.
/// The claim: afterwards `key` maps to `value` and every other key is as
/// before; the result is the value that `key` had, if it had one.
#[verifier::external_body]
pub(crate) fn table_insert(t: &mut Table, key: u64, value: Vec<u8>) -> (r: Option<Vec<u8>>)
    requires
        value@.len() <= MAX_VALUE_LEN,
    ensures
        table_rows(*final(t)) == table_rows(*old(t)).insert(key, value@),
        r.is_some() == table_rows(*old(t)).contains_key(key),
        r.is_some() ==> r.unwrap()@ == table_rows(*old(t))[key],
{
    t.inner.insert(key, value)
}

/// `StableBTreeMap::iter`, collected. The claim: the result holds every
/// entry of the map once, sorted by key; a stored value is no longer than
/// the B-tree can write.
#[verifier::external_body]
pub(crate) fn table_entries(t: &Table) -> (out: Vec<(u64, Vec<u8>)>)
    ensures
        lists_rows(table_rows(*t), out@),
        forall|i: int| 0 <= i < out@.len() ==> (#[trigger] out@[i]).1@.len() <= MAX_VALUE_LEN,
{
    t.inner.iter().collect()
}

} // verus!
