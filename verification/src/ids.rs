//! The identifier allocator: one durable counter for each sequence of
//! identifiers.
//!
//! A counter holds the identifier that was issued last, and a sequence that
//! has issued none counts as standing at zero. [`IdAllocator::next`] issues
//! the counter's value plus one and stores it before it returns. Nothing
//! lowers a counter.
//! [`lemma_ids_ascend`] states what follows for any run of requests: within
//! one sequence the identifiers strictly ascend, so none comes twice.
use crate::records::fetch;
use crate::records::fits;
use crate::records::records;
use crate::records::store;
use crate::records::Record;
use crate::row::blobs_bytes;
use crate::row::nums_bytes;
use crate::row::row_bytes;
use crate::row::Row;
use crate::row::RowView;
use crate::stable::table_new;
use crate::stable::region_rows;
use crate::stable::table_close;
use crate::stable::table_open;
use crate::stable::table_rows;
use crate::stable::Region;
use crate::stable::Table;
use vstd::bytes::lemma_auto_spec_u64_to_from_le_bytes;
use vstd::prelude::*;

verus! {

/// A stored counter: the identifier that its sequence issued last.
pub struct Counter {
    pub value: u64,
}

impl View for Counter {
    type V = u64;

    open spec fn view(&self) -> u64 {
        self.value
    }
}

impl Record for Counter {
    open spec fn row_of(v: u64) -> RowView {
        RowView { nums: seq![v], blobs: Seq::empty() }
    }

    open spec fn of_row(row: RowView) -> Option<u64> {
        if row.nums.len() == 1 && row.blobs.len() == 0 {
            Some(row.nums[0])
        } else {
            None
        }
    }

    fn to_row(&self) -> (row: Row) {
        let mut nums: Vec<u64> = Vec::new();
        nums.push(self.value);
        let row = Row { nums, blobs: Vec::new() };
        proof {
            assert(row@.nums =~= Self::row_of(self@).nums);
            assert(row@.blobs =~= Self::row_of(self@).blobs);
        }
        row
    }

    fn from_row(row: &Row) -> (r: Option<Counter>) {
        if row.nums.len() != 1 || row.blobs.len() != 0 {
            return None;
        }
        Some(Counter { value: row.nums[0] })
    }

    proof fn lemma_of_row_canonical(row: RowView) {
        let back = Self::row_of(Self::of_row(row).unwrap());
        assert(back.nums =~= row.nums);
        assert(back.blobs =~= row.blobs);
    }
}

/// The row of a counter is short enough for a table to store it.
pub proof fn lemma_counter_fits(v: u64)
    ensures
        fits::<Counter>(v),
{
    lemma_auto_spec_u64_to_from_le_bytes();
    let r = Counter::row_of(v);
    assert(r.nums.drop_last() =~= Seq::<u64>::empty());
    assert(nums_bytes(r.nums.drop_last()) =~= Seq::<u8>::empty());
    assert(nums_bytes(r.nums).len() == 8);
    assert(blobs_bytes(r.blobs) =~= Seq::<u8>::empty());
    assert(row_bytes(r).len() == 24);
}

/// Where the sequence `key` stands among `levels`: the identifier it issued
/// last, or zero.
pub open spec fn level(levels: Map<u8, u64>, key: u8) -> u64 {
    if levels.contains_key(key) {
        levels[key]
    } else {
        0
    }
}

/// The counters after one identifier of the sequence `key` was issued.
pub open spec fn issue(levels: Map<u8, u64>, key: u8) -> Map<u8, u64> {
    levels.insert(key, (level(levels, key) + 1) as u64)
}

/// The counters after a run of requests, each naming its sequence.
pub open spec fn after_run(levels: Map<u8, u64>, keys: Seq<u8>) -> Map<u8, u64>
    decreases keys.len(),
{
    if keys.len() == 0 {
        levels
    } else {
        issue(after_run(levels, keys.drop_last()), keys.last())
    }
}

/// The identifier that request `i` of a run is answered with.
pub open spec fn issued(levels: Map<u8, u64>, keys: Seq<u8>, i: int) -> u64 {
    level(after_run(levels, keys.take(i + 1)), keys[i])
}

/// No counter is at its limit when a request of the run reaches it.
pub open spec fn run_fits(levels: Map<u8, u64>, keys: Seq<u8>) -> bool {
    forall|i: int|
        0 <= i < keys.len() ==> level(#[trigger] after_run(levels, keys.take(i)), keys[i])
            < u64::MAX
}

/// A run never lowers a counter.
pub proof fn lemma_run_never_lowers(levels: Map<u8, u64>, keys: Seq<u8>, i: int, key: u8)
    requires
        run_fits(levels, keys),
        0 <= i <= keys.len(),
    ensures
        level(after_run(levels, keys.take(i)), key) <= level(after_run(levels, keys), key),
    decreases keys.len() - i,
{
    if i < keys.len() {
        assert(keys.take(keys.len() as int) =~= keys);
        assert(keys.take(i + 1).drop_last() =~= keys.take(i));
        assert(level(after_run(levels, keys.take(i)), keys[i]) < u64::MAX);
        lemma_run_never_lowers(levels, keys, i + 1, key);
    } else {
        assert(keys.take(i) =~= keys);
    }
}

/// Within one sequence, the identifiers issued by a run strictly ascend: a
/// later request gets a greater identifier than an earlier one, so no
/// identifier is issued twice.
pub proof fn lemma_ids_ascend(levels: Map<u8, u64>, keys: Seq<u8>, i: int, j: int)
    requires
        run_fits(levels, keys),
        0 <= i < j < keys.len(),
        keys[i] == keys[j],
    ensures
        issued(levels, keys, i) < issued(levels, keys, j),
{
    let key = keys[i];
    let upto = keys.take(j);
    assert(upto.take(i + 1) =~= keys.take(i + 1));
    assert forall|k: int| 0 <= k < upto.len() implies level(
        #[trigger] after_run(levels, upto.take(k)),
        upto[k],
    ) < u64::MAX by {
        assert(upto.take(k) =~= keys.take(k));
    }
    lemma_run_never_lowers(levels, upto, i + 1, key);
    assert(keys.take(j + 1).drop_last() =~= upto);
    assert(level(after_run(levels, keys.take(j)), keys[j]) < u64::MAX);
}

/// The durable counters of the identifier sequences.
pub struct IdAllocator {
    table: Table,
}

/// The counters among the rows of a table, by sequence.
pub open spec fn counters_of(rows: Map<u64, Seq<u8>>) -> Map<u8, u64> {
    let stored = records::<Counter>(rows);
    Map::new(|k: u8| stored.contains_key(k as u64), |k: u8| stored[k as u64])
}

impl View for IdAllocator {
    type V = Map<u8, u64>;

    /// The counters that are stored, by sequence.
    closed spec fn view(&self) -> Map<u8, u64> {
        counters_of(table_rows(self.table))
    }
}

impl IdAllocator {
    /// A fresh allocator in the region: no counter is stored, whatever the
    /// region held.
    pub fn new(region: Region) -> (a: IdAllocator)
        ensures
            a@ == Map::<u8, u64>::empty(),
    {
        let a = IdAllocator { table: table_new(region) };
        assert(a@ =~= Map::<u8, u64>::empty());
        a
    }

    /// The allocator that the region holds: its counters are those that
    /// are stored in the region.
    pub fn open(region: Region) -> (a: IdAllocator)
        ensures
            a@ == counters_of(region_rows(region)),
    {
        IdAllocator { table: table_open(region) }
    }

    /// Gives the allocator up for its region, which holds its counters.
    pub fn close(self) -> (region: Region)
        ensures
            counters_of(region_rows(region)) == self@,
    {
        table_close(self.table)
    }

    /// The identifier that the sequence `key` issued last, or zero.
    pub fn last(&self, key: u8) -> (id: u64)
        ensures
            id == level(self@, key),
    {
        match fetch::<Counter>(&self.table, key as u64) {
            Some(c) => c.value,
            None => 0,
        }
    }

    /// Starts the sequence `key`: stores a counter of zero for it where none
    /// is stored, and leaves a stored counter as it is. No sequence stands
    /// elsewhere afterwards than before.
    pub fn start(&mut self, key: u8)
        ensures
            final(self)@ == if old(self)@.contains_key(key) {
                old(self)@
            } else {
                old(self)@.insert(key, 0)
            },
            final(self)@.contains_key(key),
            forall|k: u8| level(final(self)@, k) == level(old(self)@, k),
    {
        match fetch::<Counter>(&self.table, key as u64) {
            Some(_) => {},
            None => {
                proof {
                    lemma_counter_fits(0);
                }
                store(&mut self.table, key as u64, &Counter { value: 0 });
                assert(self@ =~= old(self)@.insert(key, 0));
            },
        }
    }

    /// Issues the next identifier of the sequence `key`: one more than the
    /// last, stored before it is returned.
    pub fn next(&mut self, key: u8) -> (id: u64)
        requires
            level(old(self)@, key) < u64::MAX,
        ensures
            id == level(old(self)@, key) + 1,
            final(self)@ == issue(old(self)@, key),
    {
        let id = self.last(key) + 1;
        proof {
            lemma_counter_fits(id);
        }
        store(&mut self.table, key as u64, &Counter { value: id });
        assert(self@ =~= issue(old(self)@, key));
        id
    }
}

} // verus!
