//! The single-pole low-pass filter.
//!
//! The smoothing factor is `alpha = dt / (rc + dt)` with `rc = 1/(2*pi*cutoff)`
//! and `dt = 1/sample_rate`, which reduces to the exact rational
//! `2*pi*cutoff / (sample_rate + 2*pi*cutoff)`; it is held in millionths.
//! The filter must be primed with the very first sample it ever sees and
//! thereafter follows `out = last + alpha * (in - last)`, sample by sample,
//! with the rounding toward zero.

use vstd::prelude::*;

verus! {

use vstd::arithmetic::div_mod::{
    lemma_div_is_ordered, lemma_div_multiples_vanish, lemma_div_pos_is_pos,
};
use vstd::arithmetic::mul::{lemma_mul_inequality, lemma_mul_upper_bound};
use crate::fixed::{div_tz, div_tz_spec, lemma_div_tz_scaled, SCALE, TAU_FP};
use crate::sample::{sample_within, ComplexSample};

/// The largest magnitude a value run through the filter may have; within it
/// every intermediate product stays inside 64 bits.
pub const LP_MAX: i64 = 4_000_000_000;

/// Streaming single-pole low-pass filter state.
#[derive(Clone, Copy, Debug, PartialEq, Eq, Structural)]
pub struct LowPassFilter {
    /// Smoothing factor in millionths; between 0 and `SCALE`.
    pub alpha: i64,
    /// Whether the filter has seen its first sample.
    pub primed: bool,
    /// The last output value.
    pub last: ComplexSample,
}

/// The smoothing factor for a sample rate and a cutoff frequency:
/// `2*pi*cutoff / (sample_rate + 2*pi*cutoff)` in millionths, rounded down.
pub open spec fn alpha_for(sample_rate: u32, cutoff_hz: u32) -> int {
    (TAU_FP * cutoff_hz * SCALE) / (SCALE * sample_rate + TAU_FP * cutoff_hz)
}

/// One filter update on one scalar: `last + alpha * (x - last)`, the product
/// rounded toward zero.
pub open spec fn lp_step_val(alpha: int, last: int, x: int) -> int {
    last + div_tz_spec(alpha * (x - last), SCALE as int)
}

/// The output of the filter `f` on the next sample `s`: the sample itself
/// when the filter is not yet primed, the smoothed value otherwise.
pub open spec fn lp_out(f: LowPassFilter, s: ComplexSample) -> ComplexSample {
    if !f.primed {
        s
    } else {
        ComplexSample {
            re: lp_step_val(f.alpha as int, f.last.re as int, s.re as int) as i64,
            im: lp_step_val(f.alpha as int, f.last.im as int, s.im as int) as i64,
        }
    }
}

/// The filter state after producing `y`.
pub open spec fn lp_after(f: LowPassFilter, y: ComplexSample) -> LowPassFilter {
    LowPassFilter { alpha: f.alpha, primed: true, last: y }
}

/// The filter state and output sequence after feeding `s` through `f`.
pub open spec fn lp_run(f: LowPassFilter, s: Seq<ComplexSample>) -> (
    LowPassFilter,
    Seq<ComplexSample>,
)
    decreases s.len(),
{
    if s.len() == 0 {
        (f, Seq::empty())
    } else {
        let y = lp_out(f, s[0]);
        let rest = lp_run(lp_after(f, y), s.drop_first());
        (rest.0, seq![y] + rest.1)
    }
}

impl LowPassFilter {
    /// The state invariant: the smoothing factor is a fraction of one.
    pub open spec fn wf(self) -> bool {
        0 <= self.alpha <= SCALE
    }

    pub fn new(sample_rate: u32, cutoff_freq: u32) -> (r: LowPassFilter)
        requires
            1 <= sample_rate <= 1_000_000_000,
            cutoff_freq <= 1_000_000,
        ensures
            r.alpha == alpha_for(sample_rate, cutoff_freq),
            !r.primed,
            r.last == (ComplexSample { re: 0, im: 0 }),
            r.wf(),
    {
        proof {
            lemma_mul_upper_bound(TAU_FP as int, 6_283_186, cutoff_freq as int, 1_000_000);
        }
        let tc: u64 = (TAU_FP as u64) * (cutoff_freq as u64);
        proof {
            lemma_mul_upper_bound(tc as int, 6_283_186_000_000, SCALE as int, 1_000_000);
        }
        let num: u64 = tc * (SCALE as u64);
        let den: u64 = (SCALE as u64) * (sample_rate as u64) + tc;
        let alpha = num / den;
        proof {
            lemma_mul_inequality(tc as int, den as int, SCALE as int);
            lemma_div_is_ordered(num as int, (den as int) * (SCALE as int), den as int);
            lemma_div_multiples_vanish(SCALE as int, den as int);
            lemma_div_pos_is_pos(num as int, den as int);
        }
        LowPassFilter {
            alpha: alpha as i64,
            primed: false,
            last: ComplexSample { re: 0, im: 0 },
        }
    }

    /// One-time initialization with the first sample the filter ever sees.
    pub fn prime(&mut self, value: ComplexSample)
        ensures
            *final(self) == lp_after(*old(self), value),
    {
        self.primed = true;
        self.last = value;
    }

    /// Smooth one sample and advance the filter state.
    pub fn filter(&mut self, value: ComplexSample) -> (r: ComplexSample)
        requires
            old(self).wf(),
            sample_within(value, LP_MAX as int),
            sample_within(old(self).last, LP_MAX as int),
        ensures
            r == lp_out(*old(self), value),
            *final(self) == lp_after(*old(self), r),
            final(self).wf(),
            sample_within(r, LP_MAX as int),
    {
        if !self.primed {
            self.primed = true;
            self.last = value;
            value
        } else {
            proof {
                lemma_div_tz_scaled(self.alpha as int, value.re - self.last.re, SCALE as int);
                lemma_div_tz_scaled(self.alpha as int, value.im - self.last.im, SCALE as int);
            }
            let re = self.last.re + div_tz(self.alpha * (value.re - self.last.re), SCALE as u64);
            let im = self.last.im + div_tz(self.alpha * (value.im - self.last.im), SCALE as u64);
            let out = ComplexSample { re, im };
            self.last = out;
            out
        }
    }
}

/// The filter state and output sequence after feeding the real-valued
/// buffer `s` through `f`: each value is filtered as a complex sample with
/// no imaginary part, and the real part is kept.
pub open spec fn lp_run_r(f: LowPassFilter, s: Seq<i64>) -> (LowPassFilter, Seq<i64>)
    decreases s.len(),
{
    if s.len() == 0 {
        (f, Seq::empty())
    } else {
        let y = lp_out(f, ComplexSample { re: s[0], im: 0 });
        let rest = lp_run_r(lp_after(f, y), s.drop_first());
        (rest.0, seq![y.re] + rest.1)
    }
}

impl LowPassFilter {
    /// Smooth one complex buffer, carrying the filter state across calls.
    pub fn process(&mut self, input: &Vec<ComplexSample>) -> (out: Vec<ComplexSample>)
        requires
            old(self).wf(),
            sample_within(old(self).last, LP_MAX as int),
            forall|i: int|
                0 <= i < input@.len() ==> sample_within(#[trigger] input@[i], LP_MAX as int),
        ensures
            *final(self) == lp_run(*old(self), input@).0,
            out@ == lp_run(*old(self), input@).1,
            out@.len() == input@.len(),
            final(self).wf(),
    {
        let ghost f0 = *self;
        let mut out: Vec<ComplexSample> = Vec::new();
        let mut i: usize = 0;
        while i < input.len()
            invariant
                i <= input@.len(),
                forall|j: int|
                    0 <= j < input@.len() ==> sample_within(#[trigger] input@[j], LP_MAX as int),
                self.wf(),
                sample_within(self.last, LP_MAX as int),
                *self == lp_run(f0, input@.take(i as int)).0,
                out@ == lp_run(f0, input@.take(i as int)).1,
                out@.len() == i,
            decreases input@.len() - i,
        {
            proof {
                lemma_lp_run_snoc(f0, input@.take(i as int), input@[i as int]);
                assert(input@.take(i as int).push(input@[i as int]) =~= input@.take(i + 1));
            }
            let y = self.filter(input[i]);
            out.push(y);
            i = i + 1;
        }
        proof {
            assert(input@.take(input@.len() as int) =~= input@);
        }
        out
    }

    /// Smooth one real-valued buffer, carrying the filter state across calls.
    pub fn process_real(&mut self, input: &Vec<i64>) -> (out: Vec<i64>)
        requires
            old(self).wf(),
            sample_within(old(self).last, LP_MAX as int),
            forall|i: int| 0 <= i < input@.len() ==> -LP_MAX <= #[trigger] input@[i] <= LP_MAX,
        ensures
            *final(self) == lp_run_r(*old(self), input@).0,
            out@ == lp_run_r(*old(self), input@).1,
            out@.len() == input@.len(),
            final(self).wf(),
    {
        let ghost f0 = *self;
        let mut out: Vec<i64> = Vec::new();
        let mut i: usize = 0;
        while i < input.len()
            invariant
                i <= input@.len(),
                forall|j: int| 0 <= j < input@.len() ==> -LP_MAX <= #[trigger] input@[j] <= LP_MAX,
                self.wf(),
                sample_within(self.last, LP_MAX as int),
                *self == lp_run_r(f0, input@.take(i as int)).0,
                out@ == lp_run_r(f0, input@.take(i as int)).1,
                out@.len() == i,
            decreases input@.len() - i,
        {
            proof {
                lemma_lp_run_r_snoc(f0, input@.take(i as int), input@[i as int]);
                assert(input@.take(i as int).push(input@[i as int]) =~= input@.take(i + 1));
            }
            let y = self.filter(ComplexSample { re: input[i], im: 0 });
            out.push(y.re);
            i = i + 1;
        }
        proof {
            assert(input@.take(input@.len() as int) =~= input@);
        }
        out
    }
}

/// The filter never leaves the range its own state and input lie in.
pub proof fn lemma_lp_out_within(f: LowPassFilter, s: ComplexSample, b: int)
    requires
        f.wf(),
        sample_within(s, b),
        sample_within(f.last, b),
    ensures
        sample_within(lp_out(f, s), b),
{
    if f.primed {
        lemma_div_tz_scaled(f.alpha as int, s.re - f.last.re, SCALE as int);
        lemma_div_tz_scaled(f.alpha as int, s.im - f.last.im, SCALE as int);
    }
}

/// Feeding a concatenation equals feeding both parts in turn.
pub proof fn lemma_lp_run_concat(f: LowPassFilter, a: Seq<ComplexSample>, b: Seq<ComplexSample>)
    ensures
        lp_run(f, a + b).0 == lp_run(lp_run(f, a).0, b).0,
        lp_run(f, a + b).1 == lp_run(f, a).1 + lp_run(lp_run(f, a).0, b).1,
    decreases a.len(),
{
    if a.len() == 0 {
        assert(a + b =~= b);
        assert(lp_run(f, a).1 + lp_run(lp_run(f, a).0, b).1 =~= lp_run(f, b).1);
    } else {
        let y = lp_out(f, a[0]);
        assert((a + b).drop_first() =~= a.drop_first() + b);
        lemma_lp_run_concat(lp_after(f, y), a.drop_first(), b);
        let mid = lp_run(lp_after(f, y), a.drop_first());
        assert(seq![y] + (mid.1 + lp_run(mid.0, b).1) =~= (seq![y] + mid.1) + lp_run(mid.0, b).1);
    }
}

/// A whole run never leaves the range its state and inputs lie in, and
/// keeps the smoothing factor.
pub proof fn lemma_lp_run_within(f: LowPassFilter, s: Seq<ComplexSample>, b: int)
    requires
        f.wf(),
        sample_within(f.last, b),
        forall|i: int| 0 <= i < s.len() ==> sample_within(#[trigger] s[i], b),
    ensures
        lp_run(f, s).0.wf(),
        lp_run(f, s).0.alpha == f.alpha,
        sample_within(lp_run(f, s).0.last, b),
        forall|i: int|
            0 <= i < lp_run(f, s).1.len() ==> sample_within(#[trigger] lp_run(f, s).1[i], b),
        lp_run(f, s).1.len() == s.len(),
    decreases s.len(),
{
    if s.len() == 0 {
    } else {
        let y = lp_out(f, s[0]);
        lemma_lp_out_within(f, s[0], b);
        let t = s.drop_first();
        assert forall|i: int| 0 <= i < t.len() implies sample_within(#[trigger] t[i], b) by {
            assert(t[i] == s[i + 1]);
        }
        lemma_lp_run_within(lp_after(f, y), t, b);
        let rest = lp_run(lp_after(f, y), t);
        assert forall|i: int|
            0 <= i < lp_run(f, s).1.len() implies sample_within(
            #[trigger] lp_run(f, s).1[i],
            b,
        ) by {
            if i == 0 {
                assert(lp_run(f, s).1[0] == y);
            } else {
                assert(lp_run(f, s).1[i] == rest.1[i - 1]);
            }
        }
    }
}

/// A real-valued run never leaves the range its state and inputs lie in,
/// and keeps the smoothing factor.
pub proof fn lemma_lp_run_r_within(f: LowPassFilter, s: Seq<i64>, b: int)
    requires
        f.wf(),
        sample_within(f.last, b),
        forall|i: int| 0 <= i < s.len() ==> -b <= #[trigger] s[i] <= b,
    ensures
        lp_run_r(f, s).0.wf(),
        lp_run_r(f, s).0.alpha == f.alpha,
        sample_within(lp_run_r(f, s).0.last, b),
        forall|i: int| 0 <= i < lp_run_r(f, s).1.len() ==> -b <= #[trigger] lp_run_r(f, s).1[i] <= b,
        lp_run_r(f, s).1.len() == s.len(),
    decreases s.len(),
{
    if s.len() == 0 {
    } else {
        let y = lp_out(f, ComplexSample { re: s[0], im: 0 });
        lemma_lp_out_within(f, ComplexSample { re: s[0], im: 0 }, b);
        let t = s.drop_first();
        assert forall|i: int| 0 <= i < t.len() implies -b <= #[trigger] t[i] <= b by {
            assert(t[i] == s[i + 1]);
        }
        lemma_lp_run_r_within(lp_after(f, y), t, b);
        let rest = lp_run_r(lp_after(f, y), t);
        assert forall|i: int|
            0 <= i < lp_run_r(f, s).1.len() implies -b <= #[trigger] lp_run_r(f, s).1[i] <= b by {
            if i == 0 {
                assert(lp_run_r(f, s).1[0] == y.re);
            } else {
                assert(lp_run_r(f, s).1[i] == rest.1[i - 1]);
            }
        }
    }
}

/// Feeding a real-valued concatenation equals feeding both parts in turn.
pub proof fn lemma_lp_run_r_concat(f: LowPassFilter, a: Seq<i64>, b: Seq<i64>)
    ensures
        lp_run_r(f, a + b).0 == lp_run_r(lp_run_r(f, a).0, b).0,
        lp_run_r(f, a + b).1 == lp_run_r(f, a).1 + lp_run_r(lp_run_r(f, a).0, b).1,
    decreases a.len(),
{
    if a.len() == 0 {
        assert(a + b =~= b);
        assert(lp_run_r(f, a).1 + lp_run_r(lp_run_r(f, a).0, b).1 =~= lp_run_r(f, b).1);
    } else {
        let y = lp_out(f, ComplexSample { re: a[0], im: 0 });
        assert((a + b).drop_first() =~= a.drop_first() + b);
        lemma_lp_run_r_concat(lp_after(f, y), a.drop_first(), b);
        let mid = lp_run_r(lp_after(f, y), a.drop_first());
        assert(seq![y.re] + (mid.1 + lp_run_r(mid.0, b).1) =~= (seq![y.re] + mid.1) + lp_run_r(
            mid.0,
            b,
        ).1);
    }
}

/// Feeding one more real value equals feeding the prefix, then one update.
pub proof fn lemma_lp_run_r_snoc(f: LowPassFilter, s: Seq<i64>, x: i64)
    ensures
        lp_run_r(f, s.push(x)).0 == lp_after(
            lp_run_r(f, s).0,
            lp_out(lp_run_r(f, s).0, ComplexSample { re: x, im: 0 }),
        ),
        lp_run_r(f, s.push(x)).1 == lp_run_r(f, s).1.push(
            lp_out(lp_run_r(f, s).0, ComplexSample { re: x, im: 0 }).re,
        ),
{
    let mid = lp_run_r(f, s);
    let y = lp_out(mid.0, ComplexSample { re: x, im: 0 });
    lemma_lp_run_r_concat(f, s, seq![x]);
    assert(s.push(x) =~= s + seq![x]);
    assert(seq![x].drop_first() =~= Seq::<i64>::empty());
    assert(lp_run_r(lp_after(mid.0, y), Seq::<i64>::empty()) == (
        lp_after(mid.0, y),
        Seq::<i64>::empty(),
    ));
    assert(seq![y.re] + Seq::<i64>::empty() =~= seq![y.re]);
    assert(mid.1 + seq![y.re] =~= mid.1.push(y.re));
}

/// Feeding one more sample equals feeding the prefix, then one update.
pub proof fn lemma_lp_run_snoc(f: LowPassFilter, s: Seq<ComplexSample>, x: ComplexSample)
    ensures
        lp_run(f, s.push(x)).0 == lp_after(lp_run(f, s).0, lp_out(lp_run(f, s).0, x)),
        lp_run(f, s.push(x)).1 == lp_run(f, s).1.push(lp_out(lp_run(f, s).0, x)),
{
    let mid = lp_run(f, s);
    let y = lp_out(mid.0, x);
    lemma_lp_run_concat(f, s, seq![x]);
    assert(s.push(x) =~= s + seq![x]);
    assert(seq![x].drop_first() =~= Seq::<ComplexSample>::empty());
    assert(lp_run(lp_after(mid.0, y), Seq::<ComplexSample>::empty()) == (
        lp_after(mid.0, y),
        Seq::<ComplexSample>::empty(),
    ));
    assert(seq![y] + Seq::<ComplexSample>::empty() =~= seq![y]);
    assert(mid.1 + seq![y] =~= mid.1.push(y));
}

} // verus!
