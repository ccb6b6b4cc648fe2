//! The squelch metric and the FM discriminator.
//!
//! The metric is the root of the mean squared magnitude of the filtered
//! buffer; the discriminator turns the phase difference of each adjacent
//! pair of samples — including the boundary pair carried across buffers —
//! into one audio sample, scaled by the channel gain.

use vstd::prelude::*;

verus! {

use crate::angle::{atan2_fp, atan2_spec, wrap_angle, wrap_angle_spec, ATAN_MAX};
use crate::fixed::{div_tz, div_tz_spec, isqrt, lemma_div_tz_le, PI_FP, SCALE};
use crate::offset::MIX_MAX;
use crate::sample::{sample_within, ComplexSample};

/// The largest audio gain, in millionths: a factor of one thousand.
pub const GAIN_MAX: i64 = 1_000_000_000;

/// The largest magnitude of a discriminator output: a half turn times the
/// largest gain.
pub const AUDIO_MAX: i64 = 3_141_593_000;

/// The most samples one buffer may hold.
pub const BUF_MAX: usize = 65_536;

/// The sum of the squared magnitudes of a buffer.
pub open spec fn power_sum(s: Seq<ComplexSample>) -> int
    decreases s.len(),
{
    if s.len() == 0 {
        0
    } else {
        s[0].re * s[0].re + s[0].im * s[0].im + power_sum(s.drop_first())
    }
}

/// The integer square root: the greatest `r` with `r * r <= x`.
pub open spec fn isqrt_spec(x: int) -> int {
    choose|r: int| 0 <= r && #[trigger] (r * r) <= x && x < (r + 1) * (r + 1)
}

/// The squelch metric of a non-empty buffer: the integer square root of the
/// mean squared magnitude, in millionths of full scale.
pub open spec fn rms_spec(s: Seq<ComplexSample>) -> int {
    isqrt_spec(power_sum(s) / (s.len() as int))
}

/// A square of a bounded value is bounded.
proof fn lemma_square_bound(x: int, b: int)
    requires
        -b <= x <= b,
    ensures
        0 <= x * x <= b * b,
{
    assert(0 <= x * x <= b * b) by (nonlinear_arith)
        requires
            -b <= x <= b,
    ;
}

/// The integer square root is unique.
pub proof fn lemma_isqrt_unique(x: int, r: int)
    requires
        0 <= r,
        r * r <= x,
        x < (r + 1) * (r + 1),
    ensures
        isqrt_spec(x) == r,
{
    assert(exists|q: int| 0 <= q && #[trigger] (q * q) <= x && x < (q + 1) * (q + 1)) by {
        assert(0 <= r && r * r <= x && x < (r + 1) * (r + 1));
    }
    let c = isqrt_spec(x);
    assert(0 <= c && c * c <= x && x < (c + 1) * (c + 1));
    if c < r {
        assert((c + 1) * (c + 1) <= r * r) by (nonlinear_arith)
            requires
                0 <= c,
                c < r,
        ;
    }
    if r < c {
        assert((r + 1) * (r + 1) <= c * c) by (nonlinear_arith)
            requires
                0 <= r,
                r < c,
        ;
    }
}

/// The squared magnitudes never sum below zero.
pub proof fn lemma_power_sum_nonneg(s: Seq<ComplexSample>)
    ensures
        power_sum(s) >= 0,
    decreases s.len(),
{
    if s.len() == 0 {
    } else {
        assert(s[0].re * s[0].re >= 0 && s[0].im * s[0].im >= 0) by (nonlinear_arith);
        lemma_power_sum_nonneg(s.drop_first());
    }
}

/// Every non-negative integer has an integer square root.
pub proof fn lemma_isqrt_exists(x: int)
    requires
        x >= 0,
    ensures
        isqrt_spec(x) >= 0,
        isqrt_spec(x) * isqrt_spec(x) <= x,
        x < (isqrt_spec(x) + 1) * (isqrt_spec(x) + 1),
    decreases x,
{
    if x == 0 {
        assert(exists|q: int| 0 <= q && #[trigger] (q * q) <= x && x < (q + 1) * (q + 1)) by {
            assert(0 * 0 == 0 && (0 + 1) * (0 + 1) == 1) by (nonlinear_arith);
            assert(0 <= 0 && 0 * 0 <= x && x < (0 + 1) * (0 + 1));
        }
    } else {
        lemma_isqrt_exists(x - 1);
        let r = isqrt_spec(x - 1);
        if x < (r + 1) * (r + 1) {
            assert(exists|q: int| 0 <= q && #[trigger] (q * q) <= x && x < (q + 1) * (q + 1)) by {
                assert(0 <= r && r * r <= x && x < (r + 1) * (r + 1));
            }
        } else {
            assert(x == (r + 1) * (r + 1));
            assert((r + 1) * (r + 1) < (r + 2) * (r + 2)) by (nonlinear_arith)
                requires
                    r >= 0,
            ;
            assert(exists|q: int| 0 <= q && #[trigger] (q * q) <= x && x < (q + 1) * (q + 1)) by {
                assert(0 <= r + 1 && (r + 1) * (r + 1) <= x && x < (r + 2) * (r + 2));
            }
        }
    }
    let c = isqrt_spec(x);
    assert(0 <= c && c * c <= x && x < (c + 1) * (c + 1));
}

/// Every non-empty buffer has a well-defined squelch metric: the unique
/// integer square root of its mean squared magnitude, never negative.  An
/// empty buffer has none, and is ruled out wherever the metric is taken.
pub proof fn lemma_rms_wellformed(s: Seq<ComplexSample>)
    requires
        s.len() > 0,
    ensures
        rms_spec(s) >= 0,
        rms_spec(s) * rms_spec(s) <= power_sum(s) / (s.len() as int),
        power_sum(s) / (s.len() as int) < (rms_spec(s) + 1) * (rms_spec(s) + 1),
{
    lemma_power_sum_nonneg(s);
    vstd::arithmetic::div_mod::lemma_div_pos_is_pos(power_sum(s), s.len() as int);
    lemma_isqrt_exists(power_sum(s) / (s.len() as int));
}

/// Extending a buffer adds the squared magnitude of the new sample.
pub proof fn lemma_power_sum_snoc(s: Seq<ComplexSample>, x: ComplexSample)
    ensures
        power_sum(s.push(x)) == power_sum(s) + x.re * x.re + x.im * x.im,
    decreases s.len(),
{
    if s.len() == 0 {
        assert(s.push(x)[0] == x);
        assert(s.push(x).drop_first() =~= Seq::<ComplexSample>::empty());
        assert(power_sum(Seq::<ComplexSample>::empty()) == 0);
    } else {
        assert(s.push(x)[0] == s[0]);
        assert(s.push(x).drop_first() =~= s.drop_first().push(x));
        lemma_power_sum_snoc(s.drop_first(), x);
    }
}

/// The squelch metric of a non-empty buffer: exactly the integer square
/// root of the mean squared magnitude, and never negative.  An empty
/// buffer has no metric and is ruled out.
pub fn rms(samples: &Vec<ComplexSample>) -> (r: i64)
    requires
        1 <= samples@.len() <= BUF_MAX,
        forall|i: int|
            0 <= i < samples@.len() ==> sample_within(#[trigger] samples@[i], MIX_MAX as int),
    ensures
        r == rms_spec(samples@),
        r >= 0,
        r * r <= power_sum(samples@) / (samples@.len() as int) < (r + 1) * (r + 1),
{
    let mut sum: u64 = 0;
    let mut i: usize = 0;
    while i < samples.len()
        invariant
            i <= samples@.len(),
            samples@.len() <= BUF_MAX,
            forall|j: int|
                0 <= j < samples@.len() ==> sample_within(#[trigger] samples@[j], MIX_MAX as int),
            sum == power_sum(samples@.take(i as int)),
            sum <= i * 8_000_000_000_000,
        decreases samples@.len() - i,
    {
        let s = samples[i];
        proof {
            lemma_square_bound(s.re as int, MIX_MAX as int);
            lemma_square_bound(s.im as int, MIX_MAX as int);
            lemma_power_sum_snoc(samples@.take(i as int), s);
            assert(samples@.take(i as int).push(samples@[i as int]) =~= samples@.take(i + 1));
        }
        sum = sum + ((s.re * s.re + s.im * s.im) as u64);
        i = i + 1;
    }
    proof {
        assert(samples@.take(samples@.len() as int) =~= samples@);
    }
    let mean = sum / (samples.len() as u64);
    proof {
        vstd::arithmetic::div_mod::lemma_div_nonincreasing(sum as int, samples@.len() as int);
        vstd::arithmetic::div_mod::lemma_div_pos_is_pos(sum as int, samples@.len() as int);
    }
    let root = isqrt(mean);
    proof {
        lemma_isqrt_unique(mean as int, root as int);
        assert(root <= 1_000_000_000) by (nonlinear_arith)
            requires
                (root as int) * (root as int) <= 600_000_000_000_000_000,
        ;
    }
    root as i64
}

/// Streaming discriminator state: the last filtered sample of the previous
/// buffer, so the boundary pair spans buffers.
#[derive(Clone, Copy, Debug, PartialEq, Eq, Structural)]
pub struct Discriminator {
    pub last: ComplexSample,
}

/// The wrapped phase difference between two consecutive samples.
pub open spec fn disc_angle(a: ComplexSample, b: ComplexSample) -> int {
    wrap_angle_spec(atan2_spec(b.im as int, b.re as int) - atan2_spec(a.im as int, a.re as int))
}

/// One audio sample: the wrapped phase difference scaled by the gain.
pub open spec fn disc_out(gain: int, a: ComplexSample, b: ComplexSample) -> int {
    div_tz_spec(disc_angle(a, b) * gain, SCALE as int)
}

/// The lookback and audio sequence after demodulating `s`.
pub open spec fn disc_run(gain: int, last: ComplexSample, s: Seq<ComplexSample>) -> (
    ComplexSample,
    Seq<i64>,
)
    decreases s.len(),
{
    if s.len() == 0 {
        (last, Seq::empty())
    } else {
        let y = disc_out(gain, last, s[0]);
        let rest = disc_run(gain, s[0], s.drop_first());
        (rest.0, seq![y as i64] + rest.1)
    }
}

impl Discriminator {
    /// A discriminator whose lookback is primed with silence.
    pub fn new() -> (r: Discriminator)
        ensures
            r == (Discriminator { last: ComplexSample { re: 0, im: 0 } }),
    {
        Discriminator { last: ComplexSample { re: 0, im: 0 } }
    }

    /// Demodulate one filtered buffer into audio samples, one per input
    /// sample, the first formed with the lookback carried from the previous
    /// buffer.
    pub fn demodulate(&mut self, samples: &Vec<ComplexSample>, gain: i64) -> (out: Vec<i64>)
        requires
            0 <= gain <= GAIN_MAX,
            sample_within(old(self).last, MIX_MAX as int),
            forall|i: int|
                0 <= i < samples@.len() ==> sample_within(#[trigger] samples@[i], MIX_MAX as int),
        ensures
            final(self).last == disc_run(gain as int, old(self).last, samples@).0,
            out@ == disc_run(gain as int, old(self).last, samples@).1,
            out@.len() == samples@.len(),
            forall|i: int| 0 <= i < out@.len() ==> -AUDIO_MAX <= #[trigger] out@[i] <= AUDIO_MAX,
            samples@.len() == 0 ==> final(self).last == old(self).last,
            samples@.len() > 0 ==> final(self).last == samples@[samples@.len() - 1],
            sample_within(final(self).last, MIX_MAX as int),
    {
        let ghost last0 = self.last;
        let mut out: Vec<i64> = Vec::new();
        let mut i: usize = 0;
        while i < samples.len()
            invariant
                i <= samples@.len(),
                0 <= gain <= GAIN_MAX,
                sample_within(last0, MIX_MAX as int),
                forall|j: int|
                    0 <= j < samples@.len() ==> sample_within(
                        #[trigger] samples@[j],
                        MIX_MAX as int,
                    ),
                sample_within(self.last, MIX_MAX as int),
                self.last == disc_run(gain as int, last0, samples@.take(i as int)).0,
                out@ == disc_run(gain as int, last0, samples@.take(i as int)).1,
                out@.len() == i,
                i > 0 ==> self.last == samples@[i - 1],
                i == 0 ==> self.last == last0,
                forall|j: int| 0 <= j < out@.len() ==> -AUDIO_MAX <= #[trigger] out@[j] <= AUDIO_MAX,
            decreases samples@.len() - i,
        {
            proof {
                lemma_disc_run_snoc(gain as int, last0, samples@.take(i as int), samples@[i as int]);
                assert(samples@.take(i as int).push(samples@[i as int]) =~= samples@.take(i + 1));
            }
            let b = samples[i];
            let a1 = atan2_fp(b.im, b.re);
            let a0 = atan2_fp(self.last.im, self.last.re);
            let w = wrap_angle(a1 - a0);
            proof {
                lemma_angle_gain_bound(w as int, gain as int);
                lemma_div_tz_le(w * gain, 3_141_593_000_000_000, SCALE as int);
            }
            let y = div_tz(w * gain, SCALE as u64);
            out.push(y);
            self.last = b;
            i = i + 1;
        }
        proof {
            assert(samples@.take(samples@.len() as int) =~= samples@);
        }
        out
    }
}

/// A wrapped angle scaled by a bounded gain stays within the worst case.
proof fn lemma_angle_gain_bound(w: int, gain: int)
    requires
        -PI_FP <= w <= PI_FP,
        0 <= gain <= GAIN_MAX,
    ensures
        -3_141_593_000_000_000 <= w * gain <= 3_141_593_000_000_000,
{
    assert(-3_141_593_000_000_000 <= w * gain <= 3_141_593_000_000_000) by (nonlinear_arith)
        requires
            -3_141_593 <= w <= 3_141_593,
            0 <= gain <= 1_000_000_000,
    ;
}

/// Demodulating a concatenation equals demodulating both parts in turn.
pub proof fn lemma_disc_run_concat(
    gain: int,
    last: ComplexSample,
    a: Seq<ComplexSample>,
    b: Seq<ComplexSample>,
)
    ensures
        disc_run(gain, last, a + b).0 == disc_run(gain, disc_run(gain, last, a).0, b).0,
        disc_run(gain, last, a + b).1 == disc_run(gain, last, a).1 + disc_run(
            gain,
            disc_run(gain, last, a).0,
            b,
        ).1,
    decreases a.len(),
{
    if a.len() == 0 {
        assert(a + b =~= b);
        assert(disc_run(gain, last, a).1 + disc_run(gain, last, b).1 =~= disc_run(
            gain,
            last,
            b,
        ).1);
    } else {
        let y = disc_out(gain, last, a[0]);
        assert((a + b).drop_first() =~= a.drop_first() + b);
        lemma_disc_run_concat(gain, a[0], a.drop_first(), b);
        let mid = disc_run(gain, a[0], a.drop_first());
        assert(seq![y as i64] + (mid.1 + disc_run(gain, mid.0, b).1) =~= (seq![y as i64] + mid.1)
            + disc_run(gain, mid.0, b).1);
    }
}

/// Demodulating one more sample equals demodulating the prefix, then one
/// boundary pair.
pub proof fn lemma_disc_run_snoc(
    gain: int,
    last: ComplexSample,
    s: Seq<ComplexSample>,
    x: ComplexSample,
)
    ensures
        disc_run(gain, last, s.push(x)).0 == x,
        disc_run(gain, last, s.push(x)).1 == disc_run(gain, last, s).1.push(
            disc_out(gain, disc_run(gain, last, s).0, x) as i64,
        ),
{
    let mid = disc_run(gain, last, s);
    let y = disc_out(gain, mid.0, x);
    lemma_disc_run_concat(gain, last, s, seq![x]);
    assert(s.push(x) =~= s + seq![x]);
    assert(seq![x].drop_first() =~= Seq::<ComplexSample>::empty());
    assert(disc_run(gain, x, Seq::<ComplexSample>::empty()) == (
        x,
        Seq::<i64>::empty(),
    ));
    assert(seq![y as i64] + Seq::<i64>::empty() =~= seq![y as i64]);
    assert(mid.1 + seq![y as i64] =~= mid.1.push(y as i64));
}

} // verus!
