//! The keys of a map in ascending order.
//!
//! A table is walked in key order. [`ordered_keys`] says what that order is
//! for a set of `u64` keys, and [`lemma_ascending_is_ordered`] shows that any
//! strictly ascending sequence that holds exactly the keys of the set is that
//! order.
use vstd::prelude::*;

verus! {

/// One more than the largest `u64`.
pub open spec fn key_limit() -> nat {
    0x1_0000_0000_0000_0000
}

/// The keys of `keys` that are below `n`, ascending.
pub open spec fn keys_below(keys: Set<u64>, n: nat) -> Seq<u64>
    decreases n,
{
    if n == 0 {
        Seq::empty()
    } else {
        let rest = keys_below(keys, (n - 1) as nat);
        if n <= key_limit() && keys.contains((n - 1) as u64) {
            rest.push((n - 1) as u64)
        } else {
            rest
        }
    }
}

/// All keys of `keys`, ascending.
pub open spec fn ordered_keys(keys: Set<u64>) -> Seq<u64> {
    keys_below(keys, key_limit())
}

/// `ks` strictly ascends.
pub open spec fn ascending(ks: Seq<u64>) -> bool {
    forall|i: int, j: int| 0 <= i < j < ks.len() ==> ks[i] < ks[j]
}

/// `ks` holds the keys of `keys` and nothing else.
pub open spec fn covers(ks: Seq<u64>, keys: Set<u64>) -> bool {
    &&& forall|i: int| 0 <= i < ks.len() ==> keys.contains(#[trigger] ks[i])
    &&& forall|k: u64| #[trigger] keys.contains(k) ==> exists|i: int| 0 <= i < ks.len() && ks[i] == k
}

/// The keys of `keys` below `n` are a prefix of any ascending sequence that
/// covers `keys`; the result is the length of that prefix.
proof fn lemma_below_is_prefix(ks: Seq<u64>, keys: Set<u64>, n: nat) -> (c: int)
    requires
        ascending(ks),
        covers(ks, keys),
        n <= key_limit(),
    ensures
        0 <= c <= ks.len(),
        forall|i: int| 0 <= i < c ==> ks[i] < n,
        forall|i: int| c <= i < ks.len() ==> ks[i] >= n,
        keys_below(keys, n) == ks.take(c),
    decreases n,
{
    if n == 0 {
        assert(ks.take(0) =~= Seq::<u64>::empty());
        0
    } else {
        let c = lemma_below_is_prefix(ks, keys, (n - 1) as nat);
        let k = (n - 1) as u64;
        if keys.contains(k) {
            let i = choose|i: int| 0 <= i < ks.len() && ks[i] == k;
            assert(i >= c);
            if i > c {
                assert(ks[c] < ks[i]);
            }
            assert(i == c);
            assert(ks.take(c + 1) =~= ks.take(c).push(k));
            assert forall|j: int| c + 1 <= j < ks.len() implies ks[j] >= n by {
                assert(ks[c] < ks[j]);
            }
            c + 1
        } else {
            assert forall|j: int| c <= j < ks.len() implies ks[j] >= n by {
                assert(keys.contains(ks[j]));
            }
            c
        }
    }
}

/// A strictly ascending sequence that holds exactly the keys of a set is the
/// ordered key sequence of that set.
pub proof fn lemma_ascending_is_ordered(ks: Seq<u64>, keys: Set<u64>)
    requires
        ascending(ks),
        covers(ks, keys),
    ensures
        ks == ordered_keys(keys),
{
    let c = lemma_below_is_prefix(ks, keys, key_limit());
    assert(ks.take(ks.len() as int) =~= ks);
    if c < ks.len() {
        assert(ks[c] >= key_limit());
    }
}

/// The ordered keys of a set ascend and hold exactly the keys of the set.
pub proof fn lemma_ordered_keys(keys: Set<u64>)
    ensures
        ascending(ordered_keys(keys)),
        covers(ordered_keys(keys), keys),
{
    lemma_keys_below(keys, key_limit());
    let ks = ordered_keys(keys);
    assert forall|k: u64| #[trigger] keys.contains(k) implies exists|i: int|
        0 <= i < ks.len() && ks[i] == k by {
        assert(k < key_limit());
        assert(ks.contains(k));
    }
}

/// The keys below `n` ascend, are keys of the set below `n`, and none is
/// missing.
proof fn lemma_keys_below(keys: Set<u64>, n: nat)
    requires
        n <= key_limit(),
    ensures
        ascending(keys_below(keys, n)),
        forall|i: int|
            0 <= i < keys_below(keys, n).len() ==> keys.contains(#[trigger] keys_below(keys, n)[i])
                && keys_below(keys, n)[i] < n,
        forall|k: u64| keys.contains(k) && k < n ==> #[trigger] keys_below(keys, n).contains(k),
    decreases n,
{
    if n > 0 {
        lemma_keys_below(keys, (n - 1) as nat);
        let rest = keys_below(keys, (n - 1) as nat);
        let k = (n - 1) as u64;
        if keys.contains(k) {
            let ks = rest.push(k);
            assert(ks[rest.len() as int] == k);
            assert forall|x: u64| keys.contains(x) && x < n implies #[trigger] ks.contains(x) by {
                if x < n - 1 {
                    assert(rest.contains(x));
                    let i = choose|i: int| 0 <= i < rest.len() && rest[i] == x;
                    assert(ks[i] == x);
                } else {
                    assert(ks[rest.len() as int] == x);
                }
            }
        }
    }
}

/// Adding a key above all others appends it to the ordered keys.
pub proof fn lemma_ordered_keys_push(keys: Set<u64>, k: u64)
    requires
        forall|x: u64| keys.contains(x) ==> x < k,
    ensures
        ordered_keys(keys.insert(k)) == ordered_keys(keys).push(k),
{
    lemma_ordered_keys(keys);
    let ks = ordered_keys(keys);
    let more = ks.push(k);
    assert forall|x: u64| #[trigger] keys.insert(k).contains(x) implies exists|i: int|
        0 <= i < more.len() && more[i] == x by {
        if x == k {
            assert(more[ks.len() as int] == k);
        } else {
            let i = choose|i: int| 0 <= i < ks.len() && ks[i] == x;
            assert(more[i] == x);
        }
    }
    lemma_ascending_is_ordered(more, keys.insert(k));
}

/// The values of a map in ascending key order.
pub open spec fn listing<V>(m: Map<u64, V>) -> Seq<V> {
    let ks = ordered_keys(m.dom());
    Seq::new(ks.len(), |i: int| m[ks[i]])
}

/// Adding an entry above all keys of a map appends its value to the listing.
pub proof fn lemma_listing_push<V>(m: Map<u64, V>, k: u64, v: V)
    requires
        forall|x: u64| m.contains_key(x) ==> x < k,
    ensures
        listing(m.insert(k, v)) == listing(m).push(v),
{
    lemma_ordered_keys_push(m.dom(), k);
    lemma_ordered_keys(m.dom());
    assert(m.insert(k, v).dom() =~= m.dom().insert(k));
    let ks = ordered_keys(m.dom());
    assert forall|i: int| 0 <= i < ks.len() implies ks[i] != k by {
        assert(m.dom().contains(ks[i]));
    }
    assert(listing(m.insert(k, v)) =~= listing(m).push(v));
}

/// Filtering a sequence with one more element: the element is kept at the
/// end exactly when it meets the predicate.
pub proof fn lemma_filter_push<V>(s: Seq<V>, v: V, pred: spec_fn(V) -> bool)
    ensures
        s.push(v).filter(pred) == if pred(v) {
            s.filter(pred).push(v)
        } else {
            s.filter(pred)
        },
{
    reveal(Seq::filter);
    assert(s.push(v).drop_last() =~= s);
}

/// A predicate that every element meets filters nothing out.
pub proof fn lemma_filter_all<V>(s: Seq<V>, pred: spec_fn(V) -> bool)
    requires
        forall|i: int| 0 <= i < s.len() ==> pred(#[trigger] s[i]),
    ensures
        s.filter(pred) == s,
    decreases s.len(),
{
    reveal(Seq::filter);
    if s.len() > 0 {
        lemma_filter_all(s.drop_last(), pred);
        assert(s.drop_last().push(s.last()) =~= s);
    }
}

/// A predicate that no element meets filters everything out.
pub proof fn lemma_filter_none<V>(s: Seq<V>, pred: spec_fn(V) -> bool)
    requires
        forall|i: int| 0 <= i < s.len() ==> !pred(#[trigger] s[i]),
    ensures
        s.filter(pred) == Seq::<V>::empty(),
    decreases s.len(),
{
    reveal(Seq::filter);
    if s.len() > 0 {
        lemma_filter_none(s.drop_last(), pred);
    }
}

/// Every element of a filtered sequence is an element of the sequence that
/// meets the predicate.
pub proof fn lemma_filter_from<V>(s: Seq<V>, pred: spec_fn(V) -> bool, j: int) -> (i: int)
    requires
        0 <= j < s.filter(pred).len(),
    ensures
        0 <= i < s.len(),
        s[i] == s.filter(pred)[j],
        pred(s[i]),
    decreases s.len(),
{
    reveal(Seq::filter);
    let rest = s.drop_last().filter(pred);
    if pred(s.last()) && j == rest.len() {
        s.len() - 1
    } else {
        lemma_filter_from(s.drop_last(), pred, j)
    }
}

/// The listing of a map, filtered, is empty exactly when no value of the map
/// meets the predicate.
pub proof fn lemma_selection_empty<V>(m: Map<u64, V>, pred: spec_fn(V) -> bool)
    ensures
        listing(m).filter(pred).len() == 0 <==> forall|k: u64|
            m.contains_key(k) ==> !pred(#[trigger] m[k]),
{
    lemma_ordered_keys(m.dom());
    let ks = ordered_keys(m.dom());
    let all = listing(m);
    if forall|k: u64| m.contains_key(k) ==> !pred(#[trigger] m[k]) {
        assert forall|i: int| 0 <= i < all.len() implies !pred(#[trigger] all[i]) by {
            assert(m.contains_key(ks[i]));
        }
        lemma_filter_none(all, pred);
    }
    if all.filter(pred).len() == 0 {
        assert forall|k: u64| m.contains_key(k) implies !pred(#[trigger] m[k]) by {
            if pred(m[k]) {
                assert(m.dom().contains(k));
                let i = choose|i: int| 0 <= i < ks.len() && ks[i] == k;
                assert(all[i] == m[k]);
                all.lemma_filter_contains(pred, i);
            }
        }
    } else {
        let i = lemma_filter_from(all, pred, 0);
        assert(m.contains_key(ks[i]));
        assert(pred(m[ks[i]]));
    }
}

/// The first two elements of a filtered sequence stand in the sequence at
/// two places, in their order.
pub proof fn lemma_filter_two<V>(s: Seq<V>, pred: spec_fn(V) -> bool) -> (at: (int, int))
    requires
        s.filter(pred).len() >= 2,
    ensures
        0 <= at.0 < at.1 < s.len(),
        s[at.0] == s.filter(pred)[0],
        s[at.1] == s.filter(pred)[1],
    decreases s.len(),
{
    reveal(Seq::filter);
    let rest = s.drop_last().filter(pred);
    if pred(s.last()) && rest.len() == 1 {
        let i = lemma_filter_from(s.drop_last(), pred, 0);
        (i, s.len() - 1)
    } else {
        lemma_filter_two(s.drop_last(), pred)
    }
}

/// `k` is the lowest key of `m` whose value meets `pred`.
pub open spec fn is_first<V>(m: Map<u64, V>, pred: spec_fn(V) -> bool, k: u64) -> bool {
    &&& m.contains_key(k)
    &&& pred(m[k])
    &&& forall|j: u64| m.contains_key(j) && j < k ==> !pred(#[trigger] m[j])
}

/// The value under the lowest key whose value meets the predicate is the
/// first of the listing, filtered.
pub proof fn lemma_first_selected<V>(m: Map<u64, V>, pred: spec_fn(V) -> bool, k: u64)
    requires
        is_first(m, pred, k),
    ensures
        listing(m).filter(pred).len() > 0,
        listing(m).filter(pred)[0] == m[k],
{
    lemma_ordered_keys(m.dom());
    let ks = ordered_keys(m.dom());
    let all = listing(m);
    assert(m.dom().contains(k));
    let i = choose|i: int| 0 <= i < ks.len() && ks[i] == k;
    let before = all.take(i);
    let one = seq![all[i]];
    let after = all.skip(i + 1);
    assert(all =~= before + (one + after));
    assert forall|j: int| 0 <= j < before.len() implies !pred(#[trigger] before[j]) by {
        assert(ks[j] < ks[i]);
        assert(m.contains_key(ks[j]));
        assert(before[j] == m[ks[j]]);
    }
    lemma_filter_none(before, pred);
    lemma_filter_push(Seq::<V>::empty(), all[i], pred);
    lemma_filter_none(Seq::<V>::empty(), pred);
    assert(Seq::<V>::empty().push(all[i]) =~= one);
    Seq::filter_distributes_over_add(before, one + after, pred);
    Seq::filter_distributes_over_add(one, after, pred);
    assert(all.filter(pred) =~= one + after.filter(pred));
}

} // verus!
