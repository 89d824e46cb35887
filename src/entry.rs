//! The running statistics of one key: minimum, maximum, sum and count.
//!
//! Observations are integers in thousandths of a unit (`20.5` is `20500`),
//! so that sums and means are exact.

use crate::rounding::{
    div_round, div_round_i128, lemma_div_round_bounds, lemma_div_round_exact,
    lemma_div_round_symmetric,
};
use crate::text::{push_tenths, tenths_text};
use vstd::prelude::*;
use vstd::string::StringExecFns;

verus! {

/// Thousandths in one tenth: the display precision of a summary.
pub const THOUSANDTHS_PER_TENTH: i128 = 100;

/// What an accumulator holds, as mathematical integers.
pub struct Summary {
    pub min: int,
    pub max: int,
    pub sum: int,
    pub count: nat,
}

impl Summary {
    /// The summary of a single observation.
    pub open spec fn first(v: int) -> Summary {
        Summary { min: v, max: v, sum: v, count: 1 }
    }

    /// The summary after one more observation `v`.
    pub open spec fn observe(self, v: int) -> Summary {
        Summary {
            min: if v < self.min {
                v
            } else {
                self.min
            },
            max: if v > self.max {
                v
            } else {
                self.max
            },
            sum: self.sum + v,
            count: self.count + 1,
        }
    }

    /// The mean, in thousandths, rounded half away from zero.
    pub open spec fn mean(self) -> int {
        div_round(self.sum, self.count as int)
    }

    /// Minimum, maximum and mean, each rounded to tenths half away from zero.
    pub open spec fn tenths(self) -> (int, int, int) {
        (
            div_round(self.min, THOUSANDTHS_PER_TENTH as int),
            div_round(self.max, THOUSANDTHS_PER_TENTH as int),
            div_round(self.sum, THOUSANDTHS_PER_TENTH * self.count),
        )
    }

    /// `min/max/mean`, each in tenths with one digit after the point.
    pub open spec fn text(self) -> Seq<char> {
        tenths_text(self.tenths().0) + seq!['/'] + tenths_text(self.tenths().1) + seq!['/']
            + tenths_text(self.tenths().2)
    }

    /// At least one observation, all within `i64`, and a sum that lies
    /// between `count * min` and `count * max`.
    pub open spec fn wf(self) -> bool {
        &&& self.count >= 1
        &&& i64::MIN <= self.min <= self.max <= i64::MAX
        &&& self.count * self.min <= self.sum <= self.count * self.max
    }
}

/// The summary of a non-empty sequence of observations, fed in order.
pub open spec fn summary_of(vals: Seq<int>) -> Summary
    decreases vals.len(),
{
    if vals.len() <= 1 {
        Summary::first(vals[0])
    } else {
        summary_of(vals.drop_last()).observe(vals.last())
    }
}

/// The sum of a sequence.
pub open spec fn seq_sum(vals: Seq<int>) -> int
    decreases vals.len(),
{
    if vals.len() == 0 {
        0
    } else {
        seq_sum(vals.drop_last()) + vals.last()
    }
}

/// Whatever `i64` observations are fed, in whatever order, the summary is
/// well formed and its mean lies between its minimum and its maximum.
pub proof fn lemma_mean_within_bounds(vals: Seq<int>)
    requires
        vals.len() >= 1,
        forall|i: int| 0 <= i < vals.len() ==> i64::MIN <= #[trigger] vals[i] <= i64::MAX,
    ensures
        summary_of(vals).wf(),
        summary_of(vals).min <= summary_of(vals).mean() <= summary_of(vals).max,
    decreases vals.len(),
{
    if vals.len() > 1 {
        let prefix = vals.drop_last();
        assert forall|i: int| 0 <= i < prefix.len() implies i64::MIN <= #[trigger] prefix[i]
            <= i64::MAX by {
            assert(prefix[i] == vals[i]);
        }
        lemma_mean_within_bounds(prefix);
        lemma_observe_wf(summary_of(prefix), vals.last());
    }
    let s = summary_of(vals);
    lemma_div_round_bounds(s.sum, s.count as int, s.min, s.max);
}

/// A fresh accumulator's mean, minimum and maximum are its one observation.
pub proof fn lemma_single_observation(v: int)
    ensures
        Summary::first(v).mean() == v,
        Summary::first(v).min == v,
        Summary::first(v).max == v,
        Summary::first(v).count == 1,
{
    lemma_div_round_exact(v, 1);
}

/// After `n` observations the count is `n`, the sum is their sum, and the mean
/// is that sum divided by `n`, rounded.
pub proof fn lemma_summary_totals(vals: Seq<int>)
    requires
        vals.len() >= 1,
    ensures
        summary_of(vals).count == vals.len(),
        summary_of(vals).sum == seq_sum(vals),
        summary_of(vals).mean() == div_round(seq_sum(vals), vals.len() as int),
    decreases vals.len(),
{
    if vals.len() > 1 {
        lemma_summary_totals(vals.drop_last());
    } else {
        assert(vals.drop_last().len() == 0);
        assert(seq_sum(vals.drop_last()) == 0);
        assert(vals.last() == vals[0]);
    }
}

/// Rounding to tenths is idempotent (a value already in whole tenths is left
/// as it is), and it treats a value and its negation alike.
pub proof fn lemma_tenths_rounding(x: int)
    ensures
        div_round(
            THOUSANDTHS_PER_TENTH * div_round(x, THOUSANDTHS_PER_TENTH as int),
            THOUSANDTHS_PER_TENTH as int,
        ) == div_round(x, THOUSANDTHS_PER_TENTH as int),
        div_round(-x, THOUSANDTHS_PER_TENTH as int) == -div_round(x, THOUSANDTHS_PER_TENTH as int),
{
    lemma_div_round_exact(div_round(x, THOUSANDTHS_PER_TENTH as int), THOUSANDTHS_PER_TENTH as int);
    lemma_div_round_symmetric(x, THOUSANDTHS_PER_TENTH as int);
}

/// Running statistics for one key; never empty.
#[derive(Debug, Clone, Copy)]
pub struct CityEntry {
    min_temp: i64,
    max_temp: i64,
    probes: u64,
    sum: i128,
}

impl View for CityEntry {
    type V = Summary;

    closed spec fn view(&self) -> Summary {
        Summary {
            min: self.min_temp as int,
            max: self.max_temp as int,
            sum: self.sum as int,
            count: self.probes as nat,
        }
    }
}

proof fn lemma_observe_wf(s: Summary, v: int)
    requires
        s.wf(),
        i64::MIN <= v <= i64::MAX,
    ensures
        s.observe(v).wf(),
{
    let t = s.observe(v);
    assert(t.count * t.min <= t.sum) by (nonlinear_arith)
        requires
            s.count * s.min <= s.sum,
            t.min <= s.min,
            t.min <= v,
            t.count == s.count + 1,
            t.sum == s.sum + v,
            s.count >= 1,
    ;
    assert(t.sum <= t.count * t.max) by (nonlinear_arith)
        requires
            s.sum <= s.count * s.max,
            t.max >= s.max,
            t.max >= v,
            t.count == s.count + 1,
            t.sum == s.sum + v,
            s.count >= 1,
    ;
}

proof fn lemma_sum_range(s: Summary)
    requires
        s.wf(),
        s.count <= u64::MAX,
    ensures
        s.count * i64::MIN <= s.sum <= s.count * i64::MAX,
        -0x7fff_ffff_ffff_ffff_8000_0000_0000_0000 <= s.sum <= 0x7fff_ffff_ffff_ffff_0000_0000_0000_0000,
{
    assert(s.count * i64::MIN <= s.count * s.min) by (nonlinear_arith)
        requires
            i64::MIN <= s.min,
            s.count >= 1,
    ;
    assert(s.count * s.max <= s.count * i64::MAX) by (nonlinear_arith)
        requires
            s.max <= i64::MAX,
            s.count >= 1,
    ;
    assert(s.count * i64::MIN >= -0x7fff_ffff_ffff_ffff_8000_0000_0000_0000) by (nonlinear_arith)
        requires
            0 <= s.count <= u64::MAX,
    ;
    assert(s.count * i64::MAX <= 0x7fff_ffff_ffff_ffff_0000_0000_0000_0000) by (nonlinear_arith)
        requires
            0 <= s.count <= u64::MAX,
    ;
}

impl CityEntry {
    #[verifier::type_invariant]
    spec fn inv(&self) -> bool {
        self@.wf()
    }

    /// An accumulator holding exactly one observation.
    pub fn new(temp: i64) -> (r: Self)
        ensures
            r@ == Summary::first(temp as int),
            r@.wf(),
    {
        CityEntry { max_temp: temp, min_temp: temp, probes: 1, sum: temp as i128 }
    }

    /// Adds one observation.
    pub fn update(&mut self, temp: i64)
        requires
            old(self)@.count < u64::MAX,
        ensures
            final(self)@ == old(self)@.observe(temp as int),
            final(self)@.wf(),
    {
        proof {
            use_type_invariant(&*self);
            lemma_observe_wf(self@, temp as int);
            lemma_sum_range(self@.observe(temp as int));
        }
        let probes = self.probes + 1;
        let sum = self.sum + temp as i128;
        let min_temp = if temp < self.min_temp {
            temp
        } else {
            self.min_temp
        };
        let max_temp = if temp > self.max_temp {
            temp
        } else {
            self.max_temp
        };
        *self = CityEntry { min_temp, max_temp, probes, sum };
    }

    /// The number of observations.
    pub fn count(&self) -> (r: u64)
        ensures
            r == self@.count,
            self@.wf(),
    {
        proof {
            use_type_invariant(self);
        }
        self.probes
    }

    /// The mean, in thousandths, rounded half away from zero; it lies
    /// between the minimum and the maximum.
    pub fn avg(&self) -> (r: i64)
        ensures
            r == self@.mean(),
            self@.min <= r <= self@.max,
    {
        proof {
            use_type_invariant(self);
            lemma_sum_range(self@);
            lemma_div_round_bounds(self@.sum, self@.count as int, self@.min, self@.max);
        }
        div_round_i128(self.sum, self.probes as i128) as i64
    }

    /// The smallest observation.
    pub fn min(&self) -> (r: i64)
        ensures
            r == self@.min,
    {
        self.min_temp
    }

    /// The largest observation.
    pub fn max(&self) -> (r: i64)
        ensures
            r == self@.max,
    {
        self.max_temp
    }

    /// Minimum, maximum and mean, each in tenths, rounded half away from zero.
    pub fn display_triplet(&self) -> (r: (i64, i64, i64))
        ensures
            r.0 == self@.tenths().0,
            r.1 == self@.tenths().1,
            r.2 == self@.tenths().2,
    {
        proof {
            use_type_invariant(self);
            lemma_sum_range(self@);
            let lo: int = -92233720368547759;
            let hi: int = 92233720368547759;
            lemma_div_round_bounds(self@.min, 100, lo, hi);
            lemma_div_round_bounds(self@.max, 100, lo, hi);
            let d: int = 100 * (self@.count as int);
            assert(d * lo <= self@.sum <= d * hi) by (nonlinear_arith)
                requires
                    d == 100 * self@.count,
                    self@.count * i64::MIN <= self@.sum <= self@.count * i64::MAX,
                    self@.count >= 1,
                    lo == -92233720368547759,
                    hi == 92233720368547759,
            ;
            lemma_div_round_bounds(self@.sum, d, lo, hi);
        }
        let min_t = div_round_i128(self.min_temp as i128, THOUSANDTHS_PER_TENTH);
        let max_t = div_round_i128(self.max_temp as i128, THOUSANDTHS_PER_TENTH);
        let avg_t = div_round_i128(self.sum, THOUSANDTHS_PER_TENTH * self.probes as i128);
        (min_t as i64, max_t as i64, avg_t as i64)
    }

    /// The summary as text: `min/max/mean`, each rounded to tenths and
    /// written with one digit after the point, as in `10.4/30.6/20.5`.
    pub fn to_string(&self) -> (r: String)
        ensures
            r@ == self@.text(),
    {
        let (lo, hi, mean) = self.display_triplet();
        let mut out = String::new();
        push_tenths(&mut out, lo);
        out.append("/");
        push_tenths(&mut out, hi);
        out.append("/");
        push_tenths(&mut out, mean);
        proof {
            reveal_strlit("/");
        }
        assert(out@ =~= self@.text());
        out
    }
}

} // verus!
