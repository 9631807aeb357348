//! Median of collected values.
use crate::error::OracleError;
use vstd::prelude::*;

verus! {

/// `t` with `x` placed before the first element greater than `x`.
pub open spec fn insert_sorted(t: Seq<u128>, x: u128) -> Seq<u128>
    decreases t.len(),
{
    if t.len() == 0 {
        seq![x]
    } else if x < t[0] {
        seq![x] + t
    } else {
        seq![t[0]] + insert_sorted(t.drop_first(), x)
    }
}

/// The values of `s` in ascending order (insertion sort).
pub open spec fn sort_values(s: Seq<u128>) -> Seq<u128>
    decreases s.len(),
{
    if s.len() == 0 {
        s
    } else {
        insert_sorted(sort_values(s.drop_last()), s.last())
    }
}

/// The median of a non-empty sequence: the middle value once sorted, or the
/// floor of the mean of the two middle values where the count is even.
pub open spec fn median(s: Seq<u128>) -> int {
    let t = sort_values(s);
    let m = (t.len() / 2) as int;
    if t.len() % 2 == 0 {
        (t[m - 1] as int + t[m] as int) / 2
    } else {
        t[m] as int
    }
}

/// `t` is in ascending order.
pub open spec fn is_sorted(t: Seq<u128>) -> bool {
    forall|i: int, j: int| 0 <= i < j < t.len() ==> t[i] <= t[j]
}

proof fn lemma_insert_sorted_multiset(t: Seq<u128>, x: u128)
    ensures
        insert_sorted(t, x).to_multiset() == t.to_multiset().insert(x),
    decreases t.len(),
{
    if t.len() == 0 {
        vstd::seq_lib::to_multiset_insert(t, 0, x);
        assert(t.insert(0, x) =~= seq![x]);
    } else if x < t[0] {
        vstd::seq_lib::to_multiset_insert(t, 0, x);
        assert(t.insert(0, x) =~= seq![x] + t);
    } else {
        let rest = t.drop_first();
        let r = insert_sorted(rest, x);
        lemma_insert_sorted_multiset(rest, x);
        vstd::seq_lib::to_multiset_insert(r, 0, t[0]);
        vstd::seq_lib::to_multiset_insert(rest, 0, t[0]);
        assert(r.insert(0, t[0]) =~= seq![t[0]] + r);
        assert(rest.insert(0, t[0]) =~= t);
        assert(t.to_multiset().insert(x) =~= rest.to_multiset().insert(x).insert(t[0]));
    }
}

proof fn lemma_insert_sorted_sorted(t: Seq<u128>, x: u128)
    requires
        is_sorted(t),
    ensures
        is_sorted(insert_sorted(t, x)),
    decreases t.len(),
{
    if t.len() > 0 && !(x < t[0]) {
        let rest = t.drop_first();
        let r = insert_sorted(rest, x);
        lemma_insert_sorted_sorted(rest, x);
        lemma_insert_sorted_multiset(rest, x);
        let res = insert_sorted(t, x);
        assert forall|i: int, j: int| 0 <= i < j < res.len() implies res[i] <= res[j] by {
            if i == 0 {
                let y = r[j - 1];
                assert(r.contains(y));
                vstd::seq_lib::to_multiset_contains(r, y);
                vstd::seq_lib::to_multiset_contains(rest, y);
                if y != x {
                    let k = choose|k: int| 0 <= k < rest.len() && rest[k] == y;
                    assert(t[k + 1] == y);
                }
            }
        }
    }
}

/// Sorting keeps the values, each as often as it occurs, and puts them in
/// ascending order.
pub proof fn lemma_sort_values_sorts(s: Seq<u128>)
    ensures
        is_sorted(sort_values(s)),
        sort_values(s).to_multiset() == s.to_multiset(),
    decreases s.len(),
{
    if s.len() > 0 {
        let d = s.drop_last();
        lemma_sort_values_sorts(d);
        lemma_insert_sorted_sorted(sort_values(d), s.last());
        lemma_insert_sorted_multiset(sort_values(d), s.last());
        vstd::seq_lib::to_multiset_build(d, s.last());
        assert(d.push(s.last()) =~= s);
    }
}

pub proof fn lemma_insert_sorted_at(t: Seq<u128>, x: u128, j: int)
    requires
        0 <= j <= t.len(),
        forall|i: int| 0 <= i < j ==> t[i] <= x,
        j == t.len() || x < t[j],
    ensures
        insert_sorted(t, x) == t.insert(j, x),
    decreases t.len(),
{
    if j == 0 {
        if t.len() == 0 {
            assert(t.insert(j, x) =~= seq![x]);
        } else {
            assert(t.insert(j, x) =~= seq![x] + t);
        }
    } else {
        let d = t.drop_first();
        lemma_insert_sorted_at(d, x, j - 1);
        assert(t.insert(j, x) =~= seq![t[0]] + d.insert(j - 1, x));
    }
}

pub proof fn lemma_sort_values_len(s: Seq<u128>)
    ensures
        sort_values(s).len() == s.len(),
    decreases s.len(),
{
    if s.len() > 0 {
        lemma_sort_values_len(s.drop_last());
        lemma_insert_sorted_len(sort_values(s.drop_last()), s.last());
    }
}

pub proof fn lemma_insert_sorted_len(t: Seq<u128>, x: u128)
    ensures
        insert_sorted(t, x).len() == t.len() + 1,
    decreases t.len(),
{
    if t.len() > 0 {
        lemma_insert_sorted_len(t.drop_first(), x);
    }
}

/// Returns the values of `values` in ascending order.
fn sorted_copy(values: &Vec<u128>) -> (r: Vec<u128>)
    ensures
        r@ == sort_values(values@),
{
    let mut sorted: Vec<u128> = Vec::new();
    let mut i: usize = 0;
    while i < values.len()
        invariant
            i <= values@.len(),
            sorted@ == sort_values(values@.take(i as int)),
        decreases values@.len() - i,
    {
        let x = values[i];
        let mut j: usize = 0;
        while j < sorted.len() && sorted[j] <= x
            invariant
                j <= sorted@.len(),
                forall|l: int| 0 <= l < j ==> sorted@[l] <= x,
            decreases sorted@.len() - j,
        {
            j = j + 1;
        }
        proof {
            lemma_insert_sorted_at(sorted@, x, j as int);
            assert(values@.take(i + 1).drop_last() =~= values@.take(i as int));
        }
        sorted.insert(j, x);
        i = i + 1;
    }
    assert(values@.take(i as int) =~= values@);
    sorted
}

/// Sorts `values` in place and returns their median; an even count gives
/// the floor of the mean of the two middle values.
pub fn aggregate_values(values: &mut Vec<u128>) -> (r: Result<u128, OracleError>)
    ensures
        old(values)@.len() == 0 ==> r == Err::<u128, OracleError>(OracleError::EmptyAggregationSet)
            && final(values)@ == old(values)@,
        old(values)@.len() > 0 ==> (r matches Ok(m) && m == median(old(values)@)),
        old(values)@.len() > 0 ==> final(values)@ == sort_values(old(values)@),
        old(values)@.len() > 0 ==> is_sorted(final(values)@) && final(values)@.to_multiset() == old(
            values,
        )@.to_multiset(),
{
    if values.len() == 0 {
        return Err(OracleError::EmptyAggregationSet);
    }
    let sorted = sorted_copy(values);
    proof {
        lemma_sort_values_len(old(values)@);
        lemma_sort_values_sorts(old(values)@);
    }
    *values = sorted;
    let mid = values.len() / 2;
    if values.len() % 2 == 0 {
        let a = values[mid - 1];
        let b = values[mid];
        Ok(a / 2 + b / 2 + (a % 2 + b % 2) / 2)
    } else {
        Ok(values[mid])
    }
}

} // verus!
