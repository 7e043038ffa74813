//! Bucket-boundary computation and bucket assignment.
//!
//! Buckets partition the observed value range into `bucket_count` contiguous
//! sub-ranges of equal integer width, computed at render time from the
//! observed minimum and maximum. Each sample lands in the bucket
//! `(value - min) / width`, clamped to the last bucket.

use vstd::prelude::*;
use vstd::arithmetic::div_mod::lemma_fundamental_div_mod;

use crate::stats::{lemma_max_of_correct, lemma_min_of_correct, max_of, min_of};

verus! {

/// Width of each bucket: the ceiling of `(max - min) / n`, and at least 1 so
/// that a data set whose values are all equal still lands in a bucket.
pub open spec fn spec_bucket_width(min: u64, max: u64, n: int) -> int {
    let range = max - min;
    if range == 0 {
        1
    } else if range % n == 0 {
        range / n
    } else {
        range / n + 1
    }
}

/// The bucket a sample falls into: `(value - min) / width`, clamped to the
/// last bucket to absorb rounding at the top edge.
pub open spec fn spec_bucket_index(v: u64, min: u64, width: int, n: int) -> int {
    let q = (v - min) / width;
    if q > n - 1 {
        n - 1
    } else {
        q
    }
}

/// How many samples of `s` fall into bucket `i`.
pub open spec fn count_matching(s: Seq<u64>, min: u64, width: int, n: int, i: int) -> int
    decreases s.len(),
{
    if s.len() == 0 {
        0
    } else {
        count_matching(s.drop_last(), min, width, n, i) + if spec_bucket_index(
            s.last(),
            min,
            width,
            n,
        ) == i {
            1int
        } else {
            0int
        }
    }
}

/// The total of the counts of buckets `0 .. k`.
pub open spec fn sum_counts(s: Seq<u64>, min: u64, width: int, n: int, k: int) -> int
    decreases k,
{
    if k <= 0 {
        0
    } else {
        sum_counts(s, min, width, n, k - 1) + count_matching(s, min, width, n, k - 1)
    }
}

/// The largest count among buckets `0 .. k`.
pub open spec fn spec_max_count(s: Seq<u64>, min: u64, width: int, n: int, k: int) -> int
    decreases k,
{
    if k <= 0 {
        0
    } else {
        let prev = spec_max_count(s, min, width, n, k - 1);
        let c = count_matching(s, min, width, n, k - 1);
        if c > prev {
            c
        } else {
            prev
        }
    }
}

/// The width is positive and small enough that all `n` buckets together
/// cover the whole range without overshooting it by more than one bucket.
pub proof fn lemma_bucket_width_bounds(min: u64, max: u64, n: int)
    requires
        min <= max,
        n >= 1,
    ensures
        1 <= spec_bucket_width(min, max, n),
        spec_bucket_width(min, max, n) <= if max == min {
            1int
        } else {
            (max - min) as int
        },
        n * spec_bucket_width(min, max, n) <= (max - min) + n,
        max - min <= n * spec_bucket_width(min, max, n),
{
    let range = max - min;
    let w = spec_bucket_width(min, max, n);
    if range == 0 {
        assert(n * 1 == n) by (nonlinear_arith);
    } else {
        let q = range / n;
        let r = range % n;
        lemma_fundamental_div_mod(range as int, n);
        assert(0 <= r < n) by (nonlinear_arith)
            requires
                r == range % n,
                n >= 1,
                range >= 0,
        ;
        assert(q >= 0) by (nonlinear_arith)
            requires
                range == n * q + r,
                range > 0,
                n >= 1,
                r < n,
        ;
        if r == 0 {
            assert(q >= 1) by (nonlinear_arith)
                requires
                    range == n * q,
                    range > 0,
                    n >= 1,
            ;
            assert(q <= n * q) by (nonlinear_arith)
                requires
                    q >= 0,
                    n >= 1,
            ;
        } else {
            assert(q + 1 <= n * q + r) by (nonlinear_arith)
                requires
                    q >= 0,
                    n >= 1,
                    r >= 1,
            ;
            assert(n * (q + 1) == n * q + n) by (nonlinear_arith);
        }
    }
}

/// Every sample at or above the minimum lands in one of the `n` buckets.
pub proof fn lemma_index_in_range(v: u64, min: u64, width: int, n: int)
    requires
        min <= v,
        width >= 1,
        n >= 1,
    ensures
        0 <= spec_bucket_index(v, min, width, n) < n,
{
    let q = (v - min) / width;
    assert(q >= 0) by (nonlinear_arith)
        requires
            v - min >= 0,
            width >= 1,
            q == (v - min) / width,
    ;
}

/// Appending one sample adds one to exactly the bucket it falls in.
pub proof fn lemma_count_matching_push(s: Seq<u64>, v: u64, min: u64, width: int, n: int, i: int)
    ensures
        count_matching(s.push(v), min, width, n, i) == count_matching(s, min, width, n, i) + if
        spec_bucket_index(v, min, width, n) == i {
            1int
        } else {
            0int
        },
{
    assert(s.push(v).drop_last() =~= s);
    assert(s.push(v).last() == v);
}

proof fn lemma_sum_counts_push(s: Seq<u64>, v: u64, min: u64, width: int, n: int, k: int)
    ensures
        sum_counts(s.push(v), min, width, n, k) == sum_counts(s, min, width, n, k) + if 0
            <= spec_bucket_index(v, min, width, n) < k {
            1int
        } else {
            0int
        },
    decreases k,
{
    if k > 0 {
        lemma_sum_counts_push(s, v, min, width, n, k - 1);
        lemma_count_matching_push(s, v, min, width, n, k - 1);
    }
}

proof fn lemma_sum_counts_empty(s: Seq<u64>, min: u64, width: int, n: int, k: int)
    requires
        s.len() == 0,
    ensures
        sum_counts(s, min, width, n, k) == 0,
    decreases k,
{
    if k > 0 {
        lemma_sum_counts_empty(s, min, width, n, k - 1);
    }
}

/// Every sample falls into exactly one bucket: the bucket counts total the
/// number of samples.
pub proof fn lemma_bucket_counts_total(s: Seq<u64>, min: u64, width: int, n: int)
    requires
        width >= 1,
        n >= 1,
        forall|j: int| 0 <= j < s.len() ==> min <= s[j],
    ensures
        sum_counts(s, min, width, n, n) == s.len(),
    decreases s.len(),
{
    if s.len() == 0 {
        lemma_sum_counts_empty(s, min, width, n, n);
    } else {
        let d = s.drop_last();
        let v = s.last();
        assert(d.push(v) =~= s);
        assert(forall|j: int| 0 <= j < d.len() ==> min <= d[j]);
        lemma_bucket_counts_total(d, min, width, n);
        lemma_index_in_range(v, min, width, n);
        lemma_sum_counts_push(d, v, min, width, n, n);
    }
}

proof fn lemma_count_uniform(s: Seq<u64>, min: u64, width: int, n: int, e: int, i: int)
    requires
        forall|j: int| 0 <= j < s.len() ==> spec_bucket_index(s[j], min, width, n) == e,
    ensures
        count_matching(s, min, width, n, i) == if i == e {
            s.len() as int
        } else {
            0int
        },
    decreases s.len(),
{
    if s.len() > 0 {
        let d = s.drop_last();
        assert(forall|j: int| 0 <= j < d.len() ==> d[j] == s[j]);
        lemma_count_uniform(d, min, width, n, e, i);
        assert(s.last() == s[s.len() - 1]);
    }
}

/// A data set whose samples are all equal fills exactly one bucket: the
/// first one holds every sample and the others are empty.
pub proof fn lemma_single_value_counts(s: Seq<u64>, n: int)
    requires
        n >= 1,
        s.len() > 0,
        forall|i: int| 0 <= i < s.len() ==> #[trigger] s[i] == s[0],
    ensures
        count_matching(
            s,
            min_of(s),
            spec_bucket_width(min_of(s), max_of(s), n),
            n,
            0,
        ) == s.len(),
        forall|i: int|
            0 < i < n ==> count_matching(
                s,
                min_of(s),
                spec_bucket_width(min_of(s), max_of(s), n),
                n,
                i,
            ) == 0,
{
    let mn = min_of(s);
    let mx = max_of(s);
    lemma_min_of_correct(s);
    lemma_max_of_correct(s);
    assert(mn == s[0] && mx == s[0]) by {
        let j = choose|j: int| 0 <= j < s.len() && s[j] == mn;
        let k = choose|k: int| 0 <= k < s.len() && s[k] == mx;
        assert(s[j] == s[0] && s[k] == s[0]);
    }
    let w = spec_bucket_width(mn, mx, n);
    assert(w == 1);
    assert(forall|j: int| 0 <= j < s.len() ==> spec_bucket_index(s[j], mn, w, n) == 0);
    assert forall|i: int| 0 <= i < n implies count_matching(s, mn, w, n, i) == if i == 0 {
        s.len() as int
    } else {
        0int
    } by {
        lemma_count_uniform(s, mn, w, n, 0, i);
    }
}

/// Ceiling of `(max - min) / n`, clamped to at least 1; always fits in `u64`.
pub fn bucket_width(min: u64, max: u64, n: usize) -> (w: u64)
    requires
        min <= max,
        n >= 1,
    ensures
        w as int == spec_bucket_width(min, max, n as int),
        w >= 1,
{
    proof {
        lemma_bucket_width_bounds(min, max, n as int);
    }
    if max == min {
        1
    } else {
        let range: u128 = (max - min) as u128;
        let nn: u128 = n as u128;
        let q: u128 = range / nn;
        let r: u128 = range % nn;
        if r == 0 {
            q as u64
        } else {
            (q + 1) as u64
        }
    }
}

/// The bucket `v` falls into, as an index below `n`.
pub fn bucket_index(v: u64, min: u64, width: u64, n: usize) -> (i: usize)
    requires
        min <= v,
        width >= 1,
        n >= 1,
    ensures
        i as int == spec_bucket_index(v, min, width as int, n as int),
        i < n,
{
    proof {
        lemma_index_in_range(v, min, width as int, n as int);
    }
    let q: u64 = (v - min) / width;
    if q >= (n - 1) as u64 {
        n - 1
    } else {
        q as usize
    }
}

/// Counts how many samples fall into each of the `n` buckets.
pub fn compute_counts(samples: &Vec<u64>, min: u64, width: u64, n: usize) -> (counts: Vec<usize>)
    requires
        width >= 1,
        n >= 1,
        forall|j: int| 0 <= j < samples@.len() ==> min <= samples@[j],
    ensures
        counts@.len() == n,
        forall|i: int|
            0 <= i < n ==> counts@[i] == count_matching(
                samples@,
                min,
                width as int,
                n as int,
                i,
            ),
{
    let mut counts: Vec<usize> = Vec::new();
    while counts.len() < n
        invariant
            counts@.len() <= n,
            forall|i: int| 0 <= i < counts@.len() ==> counts@[i] == 0,
        decreases n - counts.len(),
    {
        counts.push(0);
    }
    let mut j: usize = 0;
    while j < samples.len()
        invariant
            j <= samples@.len(),
            counts@.len() == n,
            width >= 1,
            n >= 1,
            forall|jj: int| 0 <= jj < samples@.len() ==> min <= samples@[jj],
            forall|i: int|
                0 <= i < n ==> counts@[i] == count_matching(
                    samples@.take(j as int),
                    min,
                    width as int,
                    n as int,
                    i,
                ),
            forall|i: int| 0 <= i < n ==> counts@[i] <= j,
        decreases samples@.len() - j,
    {
        let v = samples[j];
        let idx = bucket_index(v, min, width, n);
        let c = counts[idx];
        counts.set(idx, c + 1);
        proof {
            let prefix = samples@.take(j as int);
            let next = samples@.take(j + 1);
            assert(next.drop_last() =~= prefix);
            assert(next.last() == samples@[j as int]);
            assert(forall|i: int|
                0 <= i < n ==> count_matching(next, min, width as int, n as int, i)
                    == count_matching(prefix, min, width as int, n as int, i) + if
                spec_bucket_index(samples@[j as int], min, width as int, n as int) == i {
                    1int
                } else {
                    0int
                });
        }
        j += 1;
    }
    proof {
        assert(samples@.take(samples@.len() as int) =~= samples@);
    }
    counts
}

/// The largest count among the buckets.
pub fn max_count(counts: &Vec<usize>, ghost_s: Ghost<Seq<u64>>, min: u64, width: u64, n: usize) -> (
    m: usize)
    requires
        counts@.len() == n,
        forall|i: int|
            0 <= i < n ==> counts@[i] == count_matching(ghost_s@, min, width as int, n as int, i),
    ensures
        m as int == spec_max_count(ghost_s@, min, width as int, n as int, n as int),
{
    let mut m: usize = 0;
    let mut i: usize = 0;
    while i < n
        invariant
            i <= n,
            counts@.len() == n,
            forall|k: int|
                0 <= k < n ==> counts@[k] == count_matching(
                    ghost_s@,
                    min,
                    width as int,
                    n as int,
                    k,
                ),
            m as int == spec_max_count(ghost_s@, min, width as int, n as int, i as int),
        decreases n - i,
    {
        let c = counts[i];
        if c > m {
            m = c;
        }
        i += 1;
    }
    m
}

} // verus!
