//! Typed records in a table.
//!
//! A record type says how its values are written as rows and read back
//! ([`Record`]). A table then holds, under each key, either the bytes of a
//! row that reads as a record of the type, or something else; [`records`] is
//! the map of the former, and the functions here read and write a table
//! through it.
use crate::ordered::ascending;
use crate::ordered::covers;
use crate::ordered::is_first;
use crate::ordered::lemma_ascending_is_ordered;
use crate::ordered::lemma_filter_all;
use crate::ordered::lemma_filter_push;
use crate::ordered::listing;
use crate::ordered::ordered_keys;
use crate::row::lemma_parse_row_canonical;
use crate::row::lemma_same_shape_same_len;
use crate::row::parse_row;
use crate::row::row_bytes;
use crate::row::Row;
use crate::row::same_shape;
use crate::row::RowView;
use crate::stable::lists_rows;
use crate::stable::table_entries;
use crate::stable::table_get;
use crate::stable::table_insert;
use crate::stable::table_rows;
use crate::stable::Table;
use crate::stable::MAX_VALUE_LEN;
use vstd::prelude::*;

verus! {

/// A type whose values are stored as rows.
pub trait Record: View + Sized {
    /// The row that is written for a value.
    spec fn row_of(v: Self::V) -> RowView;

    /// The value that a row reads as, if it reads as one.
    spec fn of_row(row: RowView) -> Option<Self::V>;

    /// The row of this record; it reads back as this record.
    fn to_row(&self) -> (row: Row)
        ensures
            row@ == Self::row_of(self@),
            Self::of_row(row@) == Some(self@),
    ;

    /// The record that `row` reads as.
    fn from_row(row: &Row) -> (r: Option<Self>)
        ensures
            r is Some <==> Self::of_row(row@) is Some,
            r is Some ==> r.unwrap()@ == Self::of_row(row@).unwrap(),
    ;

    /// A row that reads as a value is the row of that value: no other row
    /// reads as it.
    proof fn lemma_of_row_canonical(row: RowView)
        requires
            Self::of_row(row) is Some,
        ensures
            Self::row_of(Self::of_row(row).unwrap()) == row,
    ;
}

/// The record that stored bytes read as, if they read as one.
pub open spec fn read_as<R: Record>(bytes: Seq<u8>) -> Option<R::V> {
    match parse_row(bytes) {
        Some(row) => R::of_row(row),
        None => None,
    }
}

/// The records of type `R` among the rows of a table, by key.
pub open spec fn records<R: Record>(rows: Map<u64, Seq<u8>>) -> Map<u64, R::V> {
    Map::new(
        |k: u64| rows.contains_key(k) && read_as::<R>(rows[k]) is Some,
        |k: u64| read_as::<R>(rows[k]).unwrap(),
    )
}

/// The row of the value is short enough for a table to store it.
pub open spec fn fits<R: Record>(v: R::V) -> bool {
    row_bytes(R::row_of(v)).len() <= MAX_VALUE_LEN
}

/// The values of a list of records.
pub open spec fn views<R: View>(s: Seq<R>) -> Seq<R::V> {
    Seq::new(s.len(), |i: int| s[i]@)
}

/// Writing bytes that read as `v` under `key` puts `v` under `key` among the
/// records and leaves the other records as they were.
pub proof fn lemma_records_insert<R: Record>(
    rows: Map<u64, Seq<u8>>,
    key: u64,
    bytes: Seq<u8>,
    v: R::V,
)
    requires
        read_as::<R>(bytes) == Some(v),
    ensures
        records::<R>(rows.insert(key, bytes)) == records::<R>(rows).insert(key, v),
{
    assert(records::<R>(rows.insert(key, bytes)) =~= records::<R>(rows).insert(key, v));
}

/// Among the first `i` entries, one has key `k`.
pub open spec fn seen(entries: Seq<(u64, Vec<u8>)>, i: int, k: u64) -> bool {
    exists|e: int| 0 <= e < i && (#[trigger] entries[e]).0 == k
}

/// Stored bytes that read as a value are the bytes of the row of that
/// value, so the value is short enough to be stored where the bytes are.
pub proof fn lemma_read_as_canonical<R: Record>(bytes: Seq<u8>)
    requires
        read_as::<R>(bytes) is Some,
    ensures
        row_bytes(R::row_of(read_as::<R>(bytes).unwrap())) == bytes,
        bytes.len() <= MAX_VALUE_LEN ==> fits::<R>(read_as::<R>(bytes).unwrap()),
{
    lemma_parse_row_canonical(bytes);
    R::lemma_of_row_canonical(parse_row(bytes).unwrap());
}

/// A value whose row has the shape of the row of a value that is short
/// enough to be stored is short enough to be stored.
pub proof fn lemma_fits_by_shape<R: Record>(a: R::V, b: R::V)
    requires
        fits::<R>(a),
        same_shape(R::row_of(a), R::row_of(b)),
    ensures
        fits::<R>(b),
{
    lemma_same_shape_same_len(R::row_of(a), R::row_of(b));
}

/// The record stored under `key`, if one is. What is stored is short enough
/// to be stored again.
pub fn fetch<R: Record>(t: &Table, key: u64) -> (r: Option<R>)
    ensures
        r is Some <==> records::<R>(table_rows(*t)).contains_key(key),
        r is Some ==> r.unwrap()@ == records::<R>(table_rows(*t))[key],
        r is Some ==> fits::<R>(r.unwrap()@),
{
    match table_get(t, key) {
        None => None,
        Some(bytes) => match Row::decode(&bytes) {
            None => None,
            Some(row) => {
                let r = R::from_row(&row);
                proof {
                    if r is Some {
                        lemma_read_as_canonical::<R>(bytes@);
                    }
                }
                r
            },
        },
    }
}

/// Whether the row of `rec` is short enough for a table to store it.
pub fn can_store<R: Record>(rec: &R) -> (b: bool)
    ensures
        b == fits::<R>(rec@),
{
    let bytes = rec.to_row().encode();
    bytes.len() as u64 <= MAX_VALUE_LEN
}

/// Stores `rec` under `key`, in place of whatever was there.
pub fn store<R: Record>(t: &mut Table, key: u64, rec: &R)
    requires
        fits::<R>(rec@),
    ensures
        records::<R>(table_rows(*final(t))) == records::<R>(table_rows(*old(t))).insert(
            key,
            rec@,
        ),
{
    let row = rec.to_row();
    let bytes = row.encode();
    proof {
        lemma_records_insert::<R>(table_rows(*t), key, bytes@, rec@);
    }
    table_insert(t, key, bytes);
}

/// The records of the table that `keep` accepts, in ascending key order.
/// `pred` is what `keep` computes.
pub fn scan_where<R: Record, F: Fn(&R) -> bool>(
    t: &Table,
    keep: F,
    Ghost(pred): Ghost<spec_fn(R::V) -> bool>,
) -> (out: Vec<R>)
    requires
        forall|x: &R| #[trigger] keep.requires((x,)),
        forall|x: &R, b: bool| #[trigger] keep.ensures((x,), b) ==> b == pred(x@),
    ensures
        views(out@) == listing(records::<R>(table_rows(*t))).filter(pred),
{
    let entries = table_entries(t);
    let ghost rows = table_rows(*t);
    let ghost recs = records::<R>(rows);
    let mut out: Vec<R> = Vec::new();
    let ghost mut ks: Seq<u64> = Seq::empty();
    let ghost mut vs: Seq<R::V> = Seq::empty();
    let n = entries.len();
    let mut i: usize = 0;
    proof {
        reveal(Seq::filter);
        assert(views(out@) =~= vs.filter(pred));
    }
    while i < n
        invariant
            n == entries@.len(),
            0 <= i <= n,
            lists_rows(rows, entries@),
            recs == records::<R>(rows),
            forall|x: &R| #[trigger] keep.requires((x,)),
            forall|x: &R, b: bool| #[trigger] keep.ensures((x,), b) ==> b == pred(x@),
            ks.len() == vs.len(),
            ascending(ks),
            views(out@) == vs.filter(pred),
            forall|j: int|
                0 <= j < ks.len() ==> recs.contains_key(#[trigger] ks[j]) && recs[ks[j]] == vs[j],
            forall|j: int| 0 <= j < ks.len() ==> seen(entries@, i as int, #[trigger] ks[j]),
            forall|e: int|
                0 <= e < i && recs.contains_key((#[trigger] entries@[e]).0) ==> ks.contains(
                    entries@[e].0,
                ),
        decreases n - i,
    {
        let key = entries[i].0;
        let found = match Row::decode(&entries[i].1) {
            None => None,
            Some(row) => R::from_row(&row),
        };
        assert(rows.contains_key(entries@[i as int].0));
        assert(found is Some <==> recs.contains_key(key));
        match found {
            None => {
                assert forall|j: int| 0 <= j < ks.len() implies seen(
                    entries@,
                    i + 1,
                    #[trigger] ks[j],
                ) by {
                    assert(seen(entries@, i as int, ks[j]));
                }
            },
            Some(rec) => {
                proof {
                    let old_ks = ks;
                    ks = ks.push(key);
                    assert forall|a: int, b: int| 0 <= a < b < ks.len() implies ks[a] < ks[b] by {
                        if b == old_ks.len() {
                            let e = choose|e: int|
                                0 <= e < i && (#[trigger] entries@[e]).0 == old_ks[a];
                            assert(entries@[e].0 < entries@[i as int].0);
                        }
                    }
                    assert forall|e: int|
                        0 <= e < i && recs.contains_key(
                            (#[trigger] entries@[e]).0,
                        ) implies ks.contains(entries@[e].0) by {
                        let j = choose|j: int| 0 <= j < old_ks.len() && old_ks[j] == entries@[e].0;
                        assert(ks[j] == entries@[e].0);
                    }
                    assert(ks[old_ks.len() as int] == entries@[i as int].0);
                    assert forall|j: int| 0 <= j < ks.len() implies seen(
                        entries@,
                        i + 1,
                        #[trigger] ks[j],
                    ) by {
                        if j < old_ks.len() {
                            assert(seen(entries@, i as int, old_ks[j]));
                        }
                    }
                    lemma_filter_push(vs, rec@, pred);
                    vs = vs.push(rec@);
                }
                let ghost before = views(out@);
                if keep(&rec) {
                    out.push(rec);
                    assert(views(out@) =~= before.push(rec@));
                }
            },
        }
        i += 1;
    }
    proof {
        assert forall|k: u64| #[trigger] recs.dom().contains(k) implies exists|j: int|
            0 <= j < ks.len() && ks[j] == k by {
            assert(rows.contains_key(k));
            let e = choose|e: int| 0 <= e < entries@.len() && (#[trigger] entries@[e]).0 == k;
            assert(recs.contains_key(entries@[e].0));
            assert(ks.contains(k));
        }
        assert(covers(ks, recs.dom()));
        lemma_ascending_is_ordered(ks, recs.dom());
        assert(vs =~= listing(recs));
    }
    out
}

/// The record under the lowest key that `keep` accepts, with its key, or
/// `None` if `keep` accepts no record of the table. `pred` is what `keep`
/// computes.
pub fn find_first<R: Record, F: Fn(&R) -> bool>(
    t: &Table,
    keep: F,
    Ghost(pred): Ghost<spec_fn(R::V) -> bool>,
) -> (r: Option<(u64, R)>)
    requires
        forall|x: &R| #[trigger] keep.requires((x,)),
        forall|x: &R, b: bool| #[trigger] keep.ensures((x,), b) ==> b == pred(x@),
    ensures
        match r {
            Some((k, rec)) => {
                &&& is_first(records::<R>(table_rows(*t)), pred, k)
                &&& rec@ == records::<R>(table_rows(*t))[k]
                &&& fits::<R>(rec@)
            },
            None => forall|k: u64|
                records::<R>(table_rows(*t)).contains_key(k) ==> !pred(
                    #[trigger] records::<R>(table_rows(*t))[k],
                ),
        },
{
    let entries = table_entries(t);
    let ghost rows = table_rows(*t);
    let ghost recs = records::<R>(rows);
    let n = entries.len();
    let mut i: usize = 0;
    while i < n
        invariant
            n == entries@.len(),
            0 <= i <= n,
            rows == table_rows(*t),
            lists_rows(rows, entries@),
            forall|e: int| 0 <= e < entries@.len() ==> (#[trigger] entries@[e]).1@.len()
                <= MAX_VALUE_LEN,
            recs == records::<R>(rows),
            forall|x: &R| #[trigger] keep.requires((x,)),
            forall|x: &R, b: bool| #[trigger] keep.ensures((x,), b) ==> b == pred(x@),
            forall|e: int|
                0 <= e < i && recs.contains_key((#[trigger] entries@[e]).0) ==> !pred(
                    recs[entries@[e].0],
                ),
        decreases n - i,
    {
        let key = entries[i].0;
        let found = match Row::decode(&entries[i].1) {
            None => None,
            Some(row) => R::from_row(&row),
        };
        assert(rows.contains_key(entries@[i as int].0));
        assert(found is Some <==> recs.contains_key(key));
        match found {
            None => {},
            Some(rec) => {
                if keep(&rec) {
                    proof {
                        lemma_read_as_canonical::<R>(entries@[i as int].1@);
                        assert forall|j: u64| recs.contains_key(j) && j < key implies !pred(
                            #[trigger] recs[j],
                        ) by {
                            assert(rows.contains_key(j));
                            let e = choose|e: int|
                                0 <= e < entries@.len() && (#[trigger] entries@[e]).0 == j;
                            if e >= i {
                                if e > i {
                                    assert(entries@[i as int].0 < entries@[e].0);
                                }
                            }
                        }
                    }
                    return Some((key, rec));
                }
            },
        }
        i += 1;
    }
    proof {
        assert forall|k: u64| recs.contains_key(k) implies !pred(#[trigger] recs[k]) by {
            assert(rows.contains_key(k));
            let e = choose|e: int| 0 <= e < entries@.len() && (#[trigger] entries@[e]).0 == k;
            assert(recs.contains_key(entries@[e].0));
        }
    }
    None
}

/// The predicate that holds of every value.
pub open spec fn any<V>() -> spec_fn(V) -> bool {
    |v: V| true
}

/// All records of the table, in ascending key order.
pub fn scan<R: Record>(t: &Table) -> (out: Vec<R>)
    ensures
        views(out@) == listing(records::<R>(table_rows(*t))),
{
    let keep = |r: &R| -> (b: bool)
        ensures
            b,
        { true };
    let out = scan_where::<R, _>(t, keep, Ghost(any::<R::V>()));
    proof {
        lemma_filter_all(listing(records::<R>(table_rows(*t))), any::<R::V>());
    }
    out
}

} // verus!
