//! The histogram itself: incremental ingestion of samples with running
//! aggregates, and rendering of the ASCII bar-chart report.

use vstd::prelude::*;
use vstd::string::StringExecFns;

use crate::buckets::{
    bucket_width, compute_counts, count_matching, lemma_bucket_width_bounds, max_count,
    spec_bucket_width, spec_max_count,
};
use crate::stats::{
    lemma_max_of_correct, lemma_min_of_correct, lemma_sum_of_bound, max_of, min_of, sum_of,
    sum_sq_of,
};
use crate::text::{
    push_bar, push_number, push_padded, num_digits, spec_bar, spec_digits, spec_num_digits,
    spec_padded,
};

verus! {

/// The widest bar the report will print, in unit glyphs.
pub const MAX_BAR_WIDTH: usize = 50;

/// How many samples one bar glyph stands for: the ceiling of
/// `max_count / MAX_BAR_WIDTH`, and at least 1.
pub open spec fn spec_unit(max_count: int) -> int {
    if max_count == 0 {
        1
    } else if max_count % (MAX_BAR_WIDTH as int) == 0 {
        max_count / (MAX_BAR_WIDTH as int)
    } else {
        max_count / (MAX_BAR_WIDTH as int) + 1
    }
}

/// The length of a bucket's bar: its count over the unit, rounded to the
/// nearest whole number of glyphs (a half rounds up).
pub open spec fn spec_bar_len(c: int, unit: int) -> int {
    (c + unit / 2) / unit
}

/// The minimum used for bucket boundaries at render time: the observed
/// minimum, or 0 when no sample has been added.
pub open spec fn spec_render_min(s: Seq<u64>) -> u64 {
    if s.len() == 0 {
        0u64
    } else {
        min_of(s)
    }
}

/// The maximum used for bucket boundaries at render time: the observed
/// maximum, or 0 when no sample has been added.
pub open spec fn spec_render_max(s: Seq<u64>) -> u64 {
    if s.len() == 0 {
        0u64
    } else {
        max_of(s)
    }
}

/// The header of the report: one `#`-prefixed line per statistic, then the
/// line naming how many samples one bar glyph stands for. When no sample has
/// been added, the statistics read `no data`.
pub open spec fn spec_header(
    cnt: int,
    mn: u64,
    mx: u64,
    mean: Seq<char>,
    std_dev: Seq<char>,
    variance: Seq<char>,
    unit: int,
) -> Seq<char> {
    "# Number of samples = "@ + spec_digits(cnt) + "\n"@ + "# Min = "@ + (if cnt > 0 {
        spec_digits(mn as int)
    } else {
        "no data"@
    }) + "\n"@ + "# Max = "@ + (if cnt > 0 {
        spec_digits(mx as int)
    } else {
        "no data"@
    }) + "\n"@ + "#\n"@ + "# Mean = "@ + (if cnt > 0 {
        mean
    } else {
        "no data"@
    }) + "\n"@ + "# Standard deviation = "@ + (if cnt > 0 {
        std_dev
    } else {
        "no data"@
    }) + "\n"@ + "# Variance = "@ + (if cnt > 0 {
        variance
    } else {
        "no data"@
    }) + "\n"@ + "#\n"@ + "# Each \u{220e} is a count of "@ + spec_digits(unit) + "\n"@ + "#\n"@
}

/// One bucket line: its boundaries right-aligned to `label_w`, its count
/// right-aligned to `count_w`, and a bar whose length is the count over
/// `unit`, rounded to the nearest glyph.
pub open spec fn spec_bucket_line(
    mn: u64,
    w: int,
    c: int,
    i: int,
    label_w: int,
    count_w: int,
    unit: int,
) -> Seq<char> {
    spec_padded(mn + i * w, label_w) + " .. "@ + spec_padded(mn + (i + 1) * w, label_w) + " [ "@
        + spec_padded(c, count_w) + " ]: "@ + spec_bar(spec_bar_len(c, unit)) + "\n"@
}

/// The bucket lines for buckets `0 .. k`, in order.
pub open spec fn spec_lines(
    s: Seq<u64>,
    mn: u64,
    w: int,
    n: int,
    label_w: int,
    count_w: int,
    unit: int,
    k: int,
) -> Seq<char>
    decreases k,
{
    if k <= 0 {
        Seq::empty()
    } else {
        spec_lines(s, mn, w, n, label_w, count_w, unit, k - 1) + spec_bucket_line(
            mn,
            w,
            count_matching(s, mn, w, n, k - 1),
            k - 1,
            label_w,
            count_w,
            unit,
        )
    }
}

/// The whole report, as a function of the bucket count, the sample sequence,
/// and the caller-supplied statistics text alone. Rendering is therefore
/// deterministic: the same accumulated state always yields the same text.
pub open spec fn spec_report(
    n: int,
    s: Seq<u64>,
    mean: Seq<char>,
    std_dev: Seq<char>,
    variance: Seq<char>,
) -> Seq<char> {
    let cnt = s.len() as int;
    let mn = spec_render_min(s);
    let mx = spec_render_max(s);
    let w = spec_bucket_width(mn, mx, n);
    let mc = spec_max_count(s, mn, w, n, n);
    let unit = spec_unit(mc);
    let label_w = spec_num_digits(mn + n * w);
    let count_w = spec_num_digits(mc);
    spec_header(cnt, mn, mx, mean, std_dev, variance, unit) + spec_lines(
        s,
        mn,
        w,
        n,
        label_w,
        count_w,
        unit,
        n,
    )
}

/// A fixed-bucket frequency histogram over unsigned 64-bit samples.
///
/// Samples are kept in arrival order, because bucket boundaries are only
/// known once the global minimum and maximum are, at render time. The sum
/// and sum of squares are accumulated in 128-bit integers as samples arrive.
pub struct Histogram {
    bucket_count: usize,
    samples: Vec<u64>,
    sum: u128,
    sum_squares: u128,
    min: u64,
    max: u64,
}

impl Histogram {
    /// The number of buckets the report will show.
    pub closed spec fn spec_bucket_count(&self) -> int {
        self.bucket_count as int
    }

    /// The samples added so far, in arrival order.
    pub closed spec fn spec_samples(&self) -> Seq<u64> {
        self.samples@
    }

    /// Internal consistency: at least one bucket, and the running aggregates
    /// agree with the sample sequence.
    pub closed spec fn wf(&self) -> bool {
        &&& self.bucket_count >= 1
        &&& self.sum as int == sum_of(self.samples@)
        &&& self.sum_squares as int == sum_sq_of(self.samples@)
        &&& self.samples@.len() > 0 ==> self.min == min_of(self.samples@) && self.max == max_of(
            self.samples@,
        )
    }

    /// Creates an empty histogram with `n` buckets. A bucket count of zero
    /// is clamped to one, so that rendering never divides by zero.
    pub fn with_buckets(n: usize) -> (h: Histogram)
        ensures
            h.wf(),
            h.spec_bucket_count() == if n == 0 {
                1int
            } else {
                n as int
            },
            h.spec_samples() == Seq::<u64>::empty(),
    {
        Histogram {
            bucket_count: if n == 0 {
                1
            } else {
                n
            },
            samples: Vec::new(),
            sum: 0,
            sum_squares: 0,
            min: 0,
            max: 0,
        }
    }

    /// Appends one sample and updates the running aggregates in place. The
    /// 128-bit accumulator for the sum of squares must have room left; the
    /// plain sum always has, since a sequence can never hold more than
    /// `usize::MAX` samples.
    pub fn add(&mut self, value: u64)
        requires
            old(self).wf(),
            sum_sq_of(old(self).spec_samples()) + value * value <= u128::MAX,
        ensures
            final(self).wf(),
            final(self).spec_samples() == old(self).spec_samples().push(value),
            final(self).spec_bucket_count() == old(self).spec_bucket_count(),
    {
        proof {
            lemma_sum_of_bound(self.samples@);
            assert(self.samples@.len() == self.samples.len());
            assert(usize::MAX <= u64::MAX);
            assert(self.samples@.len() * u64::MAX <= u64::MAX * u64::MAX) by (nonlinear_arith)
                requires
                    0 <= self.samples@.len() <= u64::MAX,
            ;
        }
        let first = self.samples.len() == 0;
        self.samples.push(value);
        self.sum = self.sum + value as u128;
        self.sum_squares = self.sum_squares + (value as u128) * (value as u128);
        if first || value < self.min {
            self.min = value;
        }
        if first || value > self.max {
            self.max = value;
        }
        proof {
            assert(self.samples@.drop_last() =~= old(self).samples@);
        }
    }

    /// Appends one sample if the sum-of-squares accumulator has room for it,
    /// and reports whether it did; the histogram is unchanged otherwise.
    pub fn try_add(&mut self, value: u64) -> (added: bool)
        requires
            old(self).wf(),
        ensures
            final(self).wf(),
            added == (sum_sq_of(old(self).spec_samples()) + value * value <= u128::MAX),
            added ==> final(self).spec_samples() == old(self).spec_samples().push(value),
            !added ==> *final(self) == *old(self),
            final(self).spec_bucket_count() == old(self).spec_bucket_count(),
    {
        proof {
            assert((value as int) * (value as int) <= u64::MAX * u64::MAX) by (nonlinear_arith)
                requires
                    0 <= value <= u64::MAX,
            ;
        }
        let square: u128 = (value as u128) * (value as u128);
        if self.sum_squares <= u128::MAX - square {
            self.add(value);
            true
        } else {
            false
        }
    }

    /// How many samples have been added.
    pub fn count(&self) -> (c: usize)
        ensures
            c == self.spec_samples().len(),
    {
        self.samples.len()
    }

    /// The configured number of buckets.
    pub fn bucket_count(&self) -> (n: usize)
        requires
            self.wf(),
        ensures
            n as int == self.spec_bucket_count(),
            n >= 1,
    {
        self.bucket_count
    }

    /// The running sum of all samples.
    pub fn sum(&self) -> (s: u128)
        requires
            self.wf(),
        ensures
            s as int == sum_of(self.spec_samples()),
    {
        self.sum
    }

    /// The running sum of the squares of all samples.
    pub fn sum_squares(&self) -> (s: u128)
        requires
            self.wf(),
        ensures
            s as int == sum_sq_of(self.spec_samples()),
    {
        self.sum_squares
    }

    /// The smallest sample seen so far, or `None` before the first one.
    pub fn min(&self) -> (m: Option<u64>)
        requires
            self.wf(),
        ensures
            match m {
                Some(v) => self.spec_samples().len() > 0 && v == min_of(self.spec_samples()),
                None => self.spec_samples().len() == 0,
            },
    {
        if self.samples.len() == 0 {
            None
        } else {
            Some(self.min)
        }
    }

    /// The largest sample seen so far, or `None` before the first one.
    pub fn max(&self) -> (m: Option<u64>)
        requires
            self.wf(),
        ensures
            match m {
                Some(v) => self.spec_samples().len() > 0 && v == max_of(self.spec_samples()),
                None => self.spec_samples().len() == 0,
            },
    {
        if self.samples.len() == 0 {
            None
        } else {
            Some(self.max)
        }
    }

    /// How many samples each bucket would hold if rendered now.
    pub fn bucket_counts(&self) -> (counts: Vec<usize>)
        requires
            self.wf(),
        ensures
            counts@.len() == self.spec_bucket_count(),
            forall|i: int|
                0 <= i < counts@.len() ==> counts@[i] == count_matching(
                    self.spec_samples(),
                    spec_render_min(self.spec_samples()),
                    spec_bucket_width(
                        spec_render_min(self.spec_samples()),
                        spec_render_max(self.spec_samples()),
                        self.spec_bucket_count(),
                    ),
                    self.spec_bucket_count(),
                    i,
                ),
    {
        let (mn, mx) = self.render_range();
        let w = bucket_width(mn, mx, self.bucket_count);
        compute_counts(&self.samples, mn, w, self.bucket_count)
    }

    /// The minimum and maximum used for bucket boundaries: the observed ones,
    /// or `(0, 0)` when no sample has been added yet.
    fn render_range(&self) -> (r: (u64, u64))
        requires
            self.wf(),
        ensures
            r.0 == spec_render_min(self.spec_samples()),
            r.1 == spec_render_max(self.spec_samples()),
            r.0 <= r.1,
            forall|j: int| 0 <= j < self.spec_samples().len() ==> r.0 <= self.spec_samples()[j],
    {
        proof {
            if self.samples@.len() > 0 {
                lemma_min_of_correct(self.samples@);
                lemma_max_of_correct(self.samples@);
                assert(min_of(self.samples@) <= self.samples@[0]);
                assert(self.samples@[0] <= max_of(self.samples@));
            }
        }
        if self.samples.len() == 0 {
            (0, 0)
        } else {
            (self.min, self.max)
        }
    }

    /// Renders the report: the `#`-prefixed statistics header, the scale
    /// line, then one line per bucket with its boundaries, its count and a
    /// proportional bar. The caller passes the text for the mean, standard
    /// deviation and variance lines; when no sample has been added these are
    /// ignored and `no data` is printed instead. The result is exactly
    /// `spec_report` of the accumulated state, so rendering never alters the
    /// histogram and is idempotent.
    #[verifier::rlimit(60)]
    pub fn render(&self, mean: &str, std_dev: &str, variance: &str) -> (r: String)
        requires
            self.wf(),
        ensures
            r@ == spec_report(
                self.spec_bucket_count(),
                self.spec_samples(),
                mean@,
                std_dev@,
                variance@,
            ),
    {
        let ghost s = self.samples@;
        let n = self.bucket_count;
        let cnt = self.samples.len();
        let (mn, mx) = self.render_range();
        let w = bucket_width(mn, mx, n);
        proof {
            lemma_bucket_width_bounds(mn, mx, n as int);
        }
        let counts = compute_counts(&self.samples, mn, w, n);
        let mc = max_count(&counts, Ghost(s), mn, w, n);
        let unit = scale_unit(mc);
        let top: u128 = mn as u128 + (n as u128) * (w as u128);
        let label_w = num_digits(top);
        let count_w = num_digits(mc as u128);
        let ghost gw = w as int;
        let ghost gn = n as int;
        let ghost gunit = unit as int;
        let ghost glabel = label_w as int;
        let ghost gcount = count_w as int;

        let mut out = String::new();
        out.append("# Number of samples = ");
        push_number(&mut out, cnt as u128);
        out.append("\n");
        out.append("# Min = ");
        if cnt > 0 {
            push_number(&mut out, mn as u128);
        } else {
            out.append("no data");
        }
        out.append("\n");
        out.append("# Max = ");
        if cnt > 0 {
            push_number(&mut out, mx as u128);
        } else {
            out.append("no data");
        }
        out.append("\n");
        out.append("#\n");
        out.append("# Mean = ");
        if cnt > 0 {
            out.append(mean);
        } else {
            out.append("no data");
        }
        out.append("\n");
        out.append("# Standard deviation = ");
        if cnt > 0 {
            out.append(std_dev);
        } else {
            out.append("no data");
        }
        out.append("\n");
        out.append("# Variance = ");
        if cnt > 0 {
            out.append(variance);
        } else {
            out.append("no data");
        }
        out.append("\n");
        out.append("#\n");
        out.append("# Each \u{220e} is a count of ");
        push_number(&mut out, unit as u128);
        out.append("\n");
        out.append("#\n");
        let ghost header = spec_header(
            cnt as int,
            mn,
            mx,
            mean@,
            std_dev@,
            variance@,
            gunit,
        );
        proof {
            assert(out@ =~= header);
        }

        let mut i: usize = 0;
        while i < n
            invariant
                i <= n,
                n >= 1,
                counts@.len() == n,
                forall|k: int|
                    0 <= k < n ==> counts@[k] == count_matching(s, mn, gw, gn, k),
                forall|k: int| 0 <= k < n ==> counts@[k] <= usize::MAX,
                unit >= 1,
                gn == n as int,
                gw == w as int,
                gunit == unit as int,
                glabel == label_w as int,
                gcount == count_w as int,
                w >= 1,
                gn * gw <= (mx - mn) + gn,
                mn <= mx,
                out@ == header + spec_lines(s, mn, gw, gn, glabel, gcount, gunit, i as int),
            decreases n - i,
        {
            proof {
                assert((i as int) * (w as int) <= (n as int) * (w as int) && (i + 1) * (w as int)
                    <= (n as int) * (w as int)) by (nonlinear_arith)
                    requires
                        0 <= (i as int),
                        (i as int) < (n as int),
                        (w as int) >= 1,
                ;
            }
            let lo: u128 = mn as u128 + (i as u128) * (w as u128);
            let hi: u128 = mn as u128 + (i as u128 + 1) * (w as u128);
            let c = counts[i];
            push_padded(&mut out, lo, label_w);
            out.append(" .. ");
            push_padded(&mut out, hi, label_w);
            out.append(" [ ");
            push_padded(&mut out, c as u128, count_w);
            out.append(" ]: ");
            push_bar(&mut out, bar_len(c, unit));
            out.append("\n");
            proof {
                assert(out@ =~= header + spec_lines(s, mn, gw, gn, glabel, gcount, gunit, i + 1));
            }
            i += 1;
        }
        proof {
            assert(out@ =~= spec_report(gn, s, mean@, std_dev@, variance@));
        }
        out
    }
}

/// Half of a positive integer, rounded down, never reaches the integer.
proof fn lemma_half_le(u: int)
    requires
        u >= 1,
    ensures
        0 <= u / 2 <= u - 1,
{
    vstd::arithmetic::div_mod::lemma_fundamental_div_mod(u, 2);
    vstd::arithmetic::div_mod::lemma_mod_division_less_than_divisor(u, 2);
    assert(u / 2 <= u - 1) by (nonlinear_arith)
        requires
            u == 2 * (u / 2) + u % 2,
            0 <= u % 2 < 2,
            u >= 1,
    ;
    assert(u / 2 >= 0) by (nonlinear_arith)
        requires
            u == 2 * (u / 2) + u % 2,
            0 <= u % 2 < 2,
            u >= 1,
    ;
}

/// The length of the bar for a bucket holding `c` samples, one glyph per
/// `unit` samples, rounded to the nearest glyph.
pub fn bar_len(c: usize, unit: usize) -> (l: usize)
    requires
        unit >= 1,
    ensures
        l as int == spec_bar_len(c as int, unit as int),
{
    let cc: u128 = c as u128;
    let uu: u128 = unit as u128;
    let b: u128 = (cc + uu / 2) / uu;
    proof {
        let ci = c as int;
        let ui = unit as int;
        lemma_half_le(ui);
        if c == 0 {
            vstd::arithmetic::div_mod::lemma_basic_div(ui / 2, ui);
        } else {
            assert(ci + ui / 2 <= ci * ui + ui - 1) by (nonlinear_arith)
                requires
                    ci >= 1,
                    ui >= 1,
                    0 <= ui / 2 <= ui - 1,
            ;
            vstd::arithmetic::div_mod::lemma_div_is_ordered(ci + ui / 2, ci * ui + ui - 1, ui);
            vstd::arithmetic::div_mod::lemma_fundamental_div_mod_converse_div(
                ci * ui + ui - 1,
                ui,
                ci,
                ui - 1,
            );
        }
    }
    b as usize
}

/// The scale factor never squashes a bar past the budget: a bucket holding
/// at most as many samples as the largest one draws at most
/// `MAX_BAR_WIDTH` glyphs.
pub proof fn lemma_bar_fits(c: int, m: int)
    requires
        0 <= c <= m,
    ensures
        spec_unit(m) >= 1,
        spec_bar_len(c, spec_unit(m)) <= MAX_BAR_WIDTH as int,
{
    let b = MAX_BAR_WIDTH as int;
    let u = spec_unit(m);
    if m == 0 {
    } else {
        let q = m / b;
        let r = m % b;
        vstd::arithmetic::div_mod::lemma_fundamental_div_mod(m, b);
        assert(0 <= r < b) by (nonlinear_arith)
            requires
                r == m % b,
                m >= 0,
                b == 50,
        ;
        assert(q >= 0) by (nonlinear_arith)
            requires
                m == b * q + r,
                m >= 1,
                b == 50,
                r < b,
        ;
        if r == 0 {
            assert(q >= 1) by (nonlinear_arith)
                requires
                    m == b * q,
                    m >= 1,
                    b == 50,
                    q >= 0,
            ;
        }
        assert(m <= b * u) by (nonlinear_arith)
            requires
                m == b * q + r,
                0 <= r < b,
                u == if r == 0 {
                    q
                } else {
                    q + 1
                },
                b == 50,
        ;
    }
    assert(c <= b * u);
    lemma_half_le(u);
    assert(c + u / 2 <= b * u + u - 1);
    vstd::arithmetic::div_mod::lemma_div_is_ordered(c + u / 2, b * u + u - 1, u);
    vstd::arithmetic::div_mod::lemma_fundamental_div_mod_converse_div(b * u + u - 1, u, b, u - 1);
}

/// How many samples one bar glyph stands for, given the largest bucket
/// count: the ceiling of `max_count / MAX_BAR_WIDTH`, and at least 1.
pub fn scale_unit(max_count: usize) -> (u: usize)
    ensures
        u as int == spec_unit(max_count as int),
        u >= 1,
{
    if max_count == 0 {
        1
    } else {
        let q = max_count / MAX_BAR_WIDTH;
        if max_count % MAX_BAR_WIDTH == 0 {
            proof {
                vstd::arithmetic::div_mod::lemma_div_pos_is_pos(max_count as int, MAX_BAR_WIDTH as int);
                vstd::arithmetic::div_mod::lemma_fundamental_div_mod(
                    max_count as int,
                    MAX_BAR_WIDTH as int,
                );
                assert(q >= 1) by (nonlinear_arith)
                    requires
                        max_count as int == (MAX_BAR_WIDTH as int) * (q as int),
                        max_count >= 1,
                        q >= 0,
                ;
            }
            q
        } else {
            proof {
                vstd::arithmetic::div_mod::lemma_div_nonincreasing(max_count as int, MAX_BAR_WIDTH as int);
            }
            q + 1
        }
    }
}

} // verus!
