//! Maximum-sum contiguous subarray of a sequence of integers, computed by
//! Kadane's single left-to-right scan and proved equal to the maximum over
//! every non-empty contiguous run.
use vstd::prelude::*;

pub mod laws;

verus! {

/// Sum of the run `s[lo..hi]`; zero when the run is empty.
pub open spec fn range_sum(s: Seq<i64>, lo: int, hi: int) -> int
    decreases hi - lo,
{
    if hi <= lo {
        0
    } else {
        range_sum(s, lo, hi - 1) + s[hi - 1]
    }
}

/// `lo..hi` names a non-empty contiguous run of a sequence of length `n`.
pub open spec fn is_run(n: int, lo: int, hi: int) -> bool {
    0 <= lo < hi <= n
}

/// Every non-empty contiguous run of `s` sums to at most `m`.
pub open spec fn bounds_all_runs(s: Seq<i64>, m: int) -> bool {
    forall|lo: int, hi: int| is_run(s.len() as int, lo, hi) ==> #[trigger] range_sum(s, lo, hi) <= m
}

/// `m` is the largest sum of a non-empty contiguous run of `s`: some run
/// reaches it and no run exceeds it.
pub open spec fn is_max_subarray_sum(s: Seq<i64>, m: int) -> bool {
    &&& exists|lo: int, hi: int| is_run(s.len() as int, lo, hi) && #[trigger] range_sum(s, lo, hi) == m
    &&& bounds_all_runs(s, m)
}

/// Returns the largest sum of a non-empty contiguous run of `values`.
///
/// The input must be non-empty, and the answer must fit in an `i64`; every
/// intermediate value of the scan is itself bounded by the answer, so no
/// other limit is needed.
pub fn kadanes_max_subarray(values: &[i64]) -> (r: i64)
    requires
        values@.len() > 0,
        bounds_all_runs(values@, i64::MAX as int),
    ensures
        is_max_subarray_sum(values@, r as int),
{
    let ghost s = values@;
    let mut best: i64 = values[0];
    let mut cur: i64 = values[0];
    let ghost mut cur_lo: int = 0;
    let ghost mut best_lo: int = 0;
    let ghost mut best_hi: int = 1;
    assert(range_sum(s, 0, 1) == s[0]) by {
        reveal_with_fuel(range_sum, 2);
    }
    let mut i: usize = 1;
    while i < values.len()
        invariant
            s == values@,
            1 <= i <= s.len(),
            bounds_all_runs(s, i64::MAX as int),
            0 <= cur_lo < i,
            range_sum(s, cur_lo, i as int) == cur,
            forall|lo: int| 0 <= lo < i ==> #[trigger] range_sum(s, lo, i as int) <= cur,
            is_run(i as int, best_lo, best_hi),
            range_sum(s, best_lo, best_hi) == best,
            forall|lo: int, hi: int|
                is_run(i as int, lo, hi) ==> #[trigger] range_sum(s, lo, hi) <= best,
        decreases s.len() - i,
    {
        let x: i64 = values[i];
        proof {
            assert(range_sum(s, i as int, i + 1) == x) by {
                reveal_with_fuel(range_sum, 2);
            }
            assert(range_sum(s, cur_lo, i + 1) == cur + x);
            assert(is_run(s.len() as int, cur_lo, i + 1));
        }
        let ext: i64 = if cur > 0 {
            cur
        } else {
            0
        };
        cur = x + ext;
        proof {
            if ext == 0 {
                cur_lo = i as int;
            }
            assert forall|lo: int| 0 <= lo < i + 1 implies #[trigger] range_sum(s, lo, i + 1) <= cur by {
                if lo < i {
                    assert(range_sum(s, lo, i as int) <= ext);
                }
            }
        }
        if cur > best {
            best = cur;
            proof {
                best_lo = cur_lo;
                best_hi = i + 1;
            }
        }
        i = i + 1;
        proof {
            assert forall|lo: int, hi: int| is_run(i as int, lo, hi) implies #[trigger] range_sum(s, lo, hi) <= best by {
                if hi == i {
                    assert(range_sum(s, lo, hi) <= cur);
                }
            }
        }
    }
    best
}

} // verus!
