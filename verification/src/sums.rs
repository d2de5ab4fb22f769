//! Sums over lists of records.
use crate::records::views;
use vstd::prelude::*;

verus! {

/// The sum of `f` over the elements of `s`.
pub open spec fn sum_by<V>(s: Seq<V>, f: spec_fn(V) -> u64) -> nat
    decreases s.len(),
{
    if s.len() == 0 {
        0
    } else {
        sum_by(s.drop_last(), f) + f(s.last()) as nat
    }
}

/// The sum over a part of a list, taken from its start, is at most the sum
/// over the list.
pub proof fn lemma_sum_by_grows<V>(s: Seq<V>, f: spec_fn(V) -> u64, i: int)
    requires
        0 <= i <= s.len(),
    ensures
        sum_by(s.take(i), f) <= sum_by(s, f),
    decreases s.len() - i,
{
    if i < s.len() {
        assert(s.take(i + 1).drop_last() =~= s.take(i));
        lemma_sum_by_grows(s, f, i + 1);
    } else {
        assert(s.take(i) =~= s);
    }
}

/// The sum of what `pick` gives for each of `items`, or `None` if that sum
/// is beyond `u64`. `f` is what `pick` computes.
pub fn checked_sum<R: View, F: Fn(&R) -> u64>(
    items: &Vec<R>,
    pick: F,
    Ghost(f): Ghost<spec_fn(R::V) -> u64>,
) -> (r: Option<u64>)
    requires
        forall|x: &R| #[trigger] pick.requires((x,)),
        forall|x: &R, y: u64| #[trigger] pick.ensures((x,), y) ==> y == f(x@),
    ensures
        match r {
            Some(total) => total == sum_by(views(items@), f),
            None => sum_by(views(items@), f) > u64::MAX,
        },
{
    let ghost all = views(items@);
    let n = items.len();
    let mut total: u64 = 0;
    let mut i: usize = 0;
    assert(all.take(0) =~= Seq::<R::V>::empty());
    while i < n
        invariant
            n == items@.len(),
            all == views(items@),
            0 <= i <= n,
            forall|x: &R| #[trigger] pick.requires((x,)),
            forall|x: &R, y: u64| #[trigger] pick.ensures((x,), y) ==> y == f(x@),
            total == sum_by(all.take(i as int), f),
        decreases n - i,
    {
        let part = pick(&items[i]);
        proof {
            assert(all.take(i + 1).drop_last() =~= all.take(i as int));
            assert(all.take(i + 1).last() == items@[i as int]@);
            lemma_sum_by_grows(all, f, i + 1);
        }
        match total.checked_add(part) {
            None => { return None; },
            Some(t) => { total = t; },
        }
        i += 1;
    }
    assert(all.take(n as int) =~= all);
    Some(total)
}

} // verus!
