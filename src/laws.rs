//! Facts about the maximum subarray sum, stated over the model that the
//! contract of `kadanes_max_subarray` uses.
use vstd::prelude::*;

use crate::{is_max_subarray_sum, is_run, range_sum};

verus! {

/// A run splits at any point between its ends into two adjacent runs.
pub proof fn lemma_range_sum_split(s: Seq<i64>, a: int, b: int, c: int)
    requires
        a <= b <= c,
    ensures
        range_sum(s, a, c) == range_sum(s, a, b) + range_sum(s, b, c),
    decreases c - b,
{
    if b < c {
        lemma_range_sum_split(s, a, b, c - 1);
    }
}

/// Over elements that are all negative, a non-empty run sums to at most
/// its last element.
proof fn lemma_negative_run_at_most_last(s: Seq<i64>, lo: int, hi: int)
    requires
        is_run(s.len() as int, lo, hi),
        forall|k: int| 0 <= k < s.len() ==> #[trigger] s[k] < 0,
    ensures
        range_sum(s, lo, hi) <= s[hi - 1],
    decreases hi - lo,
{
    if lo < hi - 1 {
        lemma_negative_run_at_most_last(s, lo, hi - 1);
        assert(s[hi - 2] < 0);
    } else {
        reveal_with_fuel(range_sum, 2);
    }
}

/// Over elements that are all non-negative, every run sums to at least zero.
proof fn lemma_nonnegative_run(s: Seq<i64>, lo: int, hi: int)
    requires
        0 <= lo,
        hi <= s.len(),
        forall|k: int| 0 <= k < s.len() ==> #[trigger] s[k] >= 0,
    ensures
        range_sum(s, lo, hi) >= 0,
    decreases hi - lo,
{
    if lo < hi {
        lemma_nonnegative_run(s, lo, hi - 1);
        assert(s[hi - 1] >= 0);
    }
}

/// The maximum subarray sum of a sequence is unique: two values that both
/// meet the definition are equal, so calling the function twice on the same
/// input gives the same answer.
pub proof fn lemma_max_subarray_sum_unique(s: Seq<i64>, m1: int, m2: int)
    requires
        is_max_subarray_sum(s, m1),
        is_max_subarray_sum(s, m2),
    ensures
        m1 == m2,
{
    let (lo1, hi1) = choose|lo: int, hi: int| is_run(s.len() as int, lo, hi) && #[trigger] range_sum(s, lo, hi) == m1;
    let (lo2, hi2) = choose|lo: int, hi: int| is_run(s.len() as int, lo, hi) && #[trigger] range_sum(s, lo, hi) == m2;
    assert(range_sum(s, lo1, hi1) <= m2);
    assert(range_sum(s, lo2, hi2) <= m1);
}

/// The maximum subarray sum of a one-element sequence is that element,
/// whatever its sign.
pub proof fn lemma_singleton(s: Seq<i64>, m: int)
    requires
        s.len() == 1,
        is_max_subarray_sum(s, m),
    ensures
        m == s[0],
{
    let (lo, hi) = choose|lo: int, hi: int| is_run(s.len() as int, lo, hi) && #[trigger] range_sum(s, lo, hi) == m;
    assert(lo == 0 && hi == 1);
    reveal_with_fuel(range_sum, 2);
}

/// When every element is negative, the maximum subarray sum is the largest
/// single element: it is one of the elements and no element exceeds it.
pub proof fn lemma_all_negative(s: Seq<i64>, m: int)
    requires
        s.len() > 0,
        forall|k: int| 0 <= k < s.len() ==> #[trigger] s[k] < 0,
        is_max_subarray_sum(s, m),
    ensures
        exists|k: int| 0 <= k < s.len() && s[k] == m,
        forall|k: int| 0 <= k < s.len() ==> #[trigger] s[k] <= m,
{
    let (lo, hi) = choose|lo: int, hi: int| is_run(s.len() as int, lo, hi) && #[trigger] range_sum(s, lo, hi) == m;
    lemma_negative_run_at_most_last(s, lo, hi);
    assert(range_sum(s, hi - 1, hi) == s[hi - 1]) by {
        reveal_with_fuel(range_sum, 2);
    }
    assert(range_sum(s, hi - 1, hi) <= m);
    assert forall|k: int| 0 <= k < s.len() implies #[trigger] s[k] <= m by {
        assert(range_sum(s, k, k + 1) == s[k]) by {
            reveal_with_fuel(range_sum, 2);
        }
        assert(range_sum(s, k, k + 1) <= m);
    }
}

/// When no element is negative, the maximum subarray sum is the sum of the
/// whole sequence.
pub proof fn lemma_all_nonnegative(s: Seq<i64>, m: int)
    requires
        s.len() > 0,
        forall|k: int| 0 <= k < s.len() ==> #[trigger] s[k] >= 0,
        is_max_subarray_sum(s, m),
    ensures
        m == range_sum(s, 0, s.len() as int),
{
    let n = s.len() as int;
    let (lo, hi) = choose|lo: int, hi: int| is_run(n, lo, hi) && #[trigger] range_sum(s, lo, hi) == m;
    lemma_range_sum_split(s, 0, lo, n);
    lemma_range_sum_split(s, lo, hi, n);
    lemma_nonnegative_run(s, 0, lo);
    lemma_nonnegative_run(s, hi, n);
    assert(range_sum(s, 0, n) <= m);
}

} // verus!
