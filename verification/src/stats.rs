//! The mathematical model of the running statistics: sum, sum of squares,
//! minimum and maximum of a sequence of samples, with the lemmas that tie
//! the incremental accumulation to these definitions.

use vstd::prelude::*;

verus! {

/// The sum of a sequence of samples, as an unbounded integer.
pub open spec fn sum_of(s: Seq<u64>) -> int
    decreases s.len(),
{
    if s.len() == 0 {
        0
    } else {
        sum_of(s.drop_last()) + s.last()
    }
}

/// The sum of the squares of a sequence of samples, as an unbounded integer.
pub open spec fn sum_sq_of(s: Seq<u64>) -> int
    decreases s.len(),
{
    if s.len() == 0 {
        0
    } else {
        sum_sq_of(s.drop_last()) + s.last() * s.last()
    }
}

/// The least element of a sequence (0 if it is empty).
pub open spec fn min_of(s: Seq<u64>) -> u64
    decreases s.len(),
{
    if s.len() == 0 {
        0
    } else if s.len() == 1 {
        s.last()
    } else if s.last() < min_of(s.drop_last()) {
        s.last()
    } else {
        min_of(s.drop_last())
    }
}

/// The greatest element of a sequence (0 if it is empty).
pub open spec fn max_of(s: Seq<u64>) -> u64
    decreases s.len(),
{
    if s.len() == 0 {
        0
    } else if s.len() == 1 {
        s.last()
    } else if s.last() > max_of(s.drop_last()) {
        s.last()
    } else {
        max_of(s.drop_last())
    }
}

/// The sum of a sequence is bounded by its length times the largest sample.
pub proof fn lemma_sum_of_bound(s: Seq<u64>)
    ensures
        0 <= sum_of(s) <= s.len() * u64::MAX,
    decreases s.len(),
{
    if s.len() == 0 {
    } else {
        lemma_sum_of_bound(s.drop_last());
        assert(s.len() * u64::MAX == (s.len() - 1) * u64::MAX + u64::MAX) by (nonlinear_arith);
    }
}

/// The sum of squares is bounded by the length times the largest square.
pub proof fn lemma_sum_sq_of_bound(s: Seq<u64>)
    ensures
        0 <= sum_sq_of(s) <= s.len() * (u64::MAX * u64::MAX),
    decreases s.len(),
{
    if s.len() == 0 {
    } else {
        lemma_sum_sq_of_bound(s.drop_last());
        let x = s.last() as int;
        assert(x * x <= u64::MAX * u64::MAX) by (nonlinear_arith)
            requires
                0 <= x <= u64::MAX,
        ;
        assert(s.len() * (u64::MAX * u64::MAX) == (s.len() - 1) * (u64::MAX * u64::MAX) + u64::MAX
            * u64::MAX) by (nonlinear_arith);
    }
}

/// The minimum of a non-empty sequence occurs in it and no element is smaller:
/// it is the true minimum of the added values.
pub proof fn lemma_min_of_correct(s: Seq<u64>)
    requires
        s.len() > 0,
    ensures
        s.contains(min_of(s)),
        forall|i: int| 0 <= i < s.len() ==> min_of(s) <= s[i],
    decreases s.len(),
{
    if s.len() == 1 {
        assert(s[0] == s.last());
    } else {
        let d = s.drop_last();
        lemma_min_of_correct(d);
        if !(s.last() < min_of(d)) {
            let j = choose|j: int| 0 <= j < d.len() && d[j] == min_of(d);
            assert(s[j] == min_of(s));
        }
        assert forall|i: int| 0 <= i < s.len() implies min_of(s) <= s[i] by {
            if i < s.len() - 1 {
                assert(d[i] == s[i]);
            }
        }
    }
}

/// The maximum of a non-empty sequence occurs in it and no element is larger:
/// it is the true maximum of the added values.
pub proof fn lemma_max_of_correct(s: Seq<u64>)
    requires
        s.len() > 0,
    ensures
        s.contains(max_of(s)),
        forall|i: int| 0 <= i < s.len() ==> s[i] <= max_of(s),
    decreases s.len(),
{
    if s.len() == 1 {
        assert(s[0] == s.last());
    } else {
        let d = s.drop_last();
        lemma_max_of_correct(d);
        if !(s.last() > max_of(d)) {
            let j = choose|j: int| 0 <= j < d.len() && d[j] == max_of(d);
            assert(s[j] == max_of(s));
        }
        assert forall|i: int| 0 <= i < s.len() implies s[i] <= max_of(s) by {
            if i < s.len() - 1 {
                assert(d[i] == s[i]);
            }
        }
    }
}

/// Helper for the variance bound: for any pivot `x`, the squares of a
/// sequence dominate twice its sum scaled by `x`, up to `len * x^2`.
proof fn lemma_pivot_square_bound(s: Seq<u64>, x: int)
    ensures
        sum_sq_of(s) + s.len() * (x * x) >= 2 * sum_of(s) * x,
    decreases s.len(),
{
    if s.len() == 0 {
        assert(sum_sq_of(s) == 0);
        assert(sum_of(s) == 0);
        assert(sum_sq_of(s) + s.len() * (x * x) >= 2 * sum_of(s) * x) by (nonlinear_arith)
            requires
                sum_sq_of(s) == 0,
                sum_of(s) == 0,
                s.len() == 0,
        ;
    } else {
        let d = s.drop_last();
        let y = s.last() as int;
        let n = d.len() as int;
        lemma_pivot_square_bound(d, x);
        assert(sum_sq_of(s) == sum_sq_of(d) + y * y);
        assert(sum_of(s) == sum_of(d) + y);
        assert(sum_sq_of(d) + y * y + (n + 1) * (x * x) >= 2 * (sum_of(d) + y) * x)
            by (nonlinear_arith)
            requires
                n >= 0,
                sum_sq_of(d) + n * (x * x) >= 2 * sum_of(d) * x,
        ;
        assert(s.len() as int == n + 1);
        assert(s.len() * (x * x) == (n + 1) * (x * x)) by (nonlinear_arith)
            requires
                s.len() as int == n + 1,
        ;
        assert(2 * sum_of(s) * x == 2 * (sum_of(d) + y) * x) by (nonlinear_arith)
            requires
                sum_of(s) == sum_of(d) + y,
        ;
    }
}

/// The numerator of the population variance is never negative:
/// `count * sum_of_squares >= sum * sum` for every sample sequence, so the
/// variance formula `sum_squares/count - mean^2` cannot go below zero.
pub proof fn lemma_variance_nonneg(s: Seq<u64>)
    ensures
        s.len() * sum_sq_of(s) >= sum_of(s) * sum_of(s),
    decreases s.len(),
{
    if s.len() == 0 {
    } else {
        let d = s.drop_last();
        let y = s.last() as int;
        let n = d.len() as int;
        lemma_variance_nonneg(d);
        lemma_pivot_square_bound(d, y);
        lemma_sum_sq_of_bound(d);
        assert(sum_sq_of(s) == sum_sq_of(d) + y * y);
        assert(sum_of(s) == sum_of(d) + y);
        assert((n + 1) * (sum_sq_of(d) + y * y) >= (sum_of(d) + y) * (sum_of(d) + y))
            by (nonlinear_arith)
            requires
                n >= 0,
                n * sum_sq_of(d) >= sum_of(d) * sum_of(d),
                sum_sq_of(d) + n * (y * y) >= 2 * sum_of(d) * y,
                sum_sq_of(d) >= 0,
        ;
    }
}

} // verus!
