//! The frequency-offset mixer.
//!
//! A channel centered `offset` Hz away from the capture center is
//! translated to baseband by multiplying the sample stream with
//! `e^(-j*2*pi*offset*t/rate)`.  The per-sample angle
//! `2*pi*offset/rate`, reduced into one turn, is supplied in
//! micro-radians; the mixer keeps the running phase as exactly
//! `t * step mod TAU_FP` — true modular arithmetic on the running sample
//! index `t`, which is never reset across buffers — and forms the rotation
//! from that phase alone through the fixed-point sine and cosine.  The
//! deviation from the ideal rotation is therefore a constant per-sample
//! quantization (under one micro-radian of retune plus the sine
//! approximation's error, below two thousandths), and does not accumulate
//! with `t`.

use vstd::prelude::*;

verus! {

use vstd::arithmetic::div_mod::{
    lemma_fundamental_div_mod, lemma_small_mod, lemma_add_mod_noop,
};
use crate::angle::{cos_fp, cos_fp_spec, sin_fp, sin_fp_spec, turn_reduce};
use crate::fixed::{div_tz, div_tz_spec, lemma_div_tz_le, SCALE, TAU_FP};
use crate::sample::{sample_within, ComplexSample};

/// The largest magnitude a mixed sample can have: the scaled complex
/// product of a full-scale sample with a unit rotation.
pub const MIX_MAX: i64 = 2_000_000;

/// Streaming mixer state.
#[derive(Clone, Copy, Debug, PartialEq, Eq, Structural)]
pub struct OffsetFilter {
    /// The per-sample phase advance `2*pi*offset/rate`, reduced into one
    /// turn, in micro-radians.
    pub step: i64,
    /// The current phase: exactly `sample * step mod TAU_FP`.
    pub phase: i64,
    /// How many samples this mixer has ever processed.
    pub sample: u64,
}

/// The real part of the complex product, before scaling.
pub open spec fn cross_re(a: ComplexSample, b: ComplexSample) -> int {
    a.re * b.re - a.im * b.im
}

/// The imaginary part of the complex product, before scaling.
pub open spec fn cross_im(a: ComplexSample, b: ComplexSample) -> int {
    a.re * b.im + a.im * b.re
}

/// The scaled complex product `a * b / SCALE`, each part rounded toward
/// zero.
pub open spec fn cmul_scaled(a: ComplexSample, b: ComplexSample) -> ComplexSample {
    ComplexSample {
        re: div_tz_spec(cross_re(a, b), SCALE as int) as i64,
        im: div_tz_spec(cross_im(a, b), SCALE as int) as i64,
    }
}

/// The rotation `e^(-j*phase)` as a fixed-point phasor.
pub open spec fn rot_of(phase: int) -> ComplexSample {
    ComplexSample { re: cos_fp_spec(phase) as i64, im: (-sin_fp_spec(phase)) as i64 }
}

/// What the mixer makes of the next sample.
pub open spec fn mix_out(m: OffsetFilter, s: ComplexSample) -> ComplexSample {
    cmul_scaled(s, rot_of(m.phase as int))
}

/// The mixer state after one sample: the phase advances by one step,
/// modulo one turn.
pub open spec fn mix_after(m: OffsetFilter) -> OffsetFilter {
    OffsetFilter {
        step: m.step,
        phase: ((m.phase + m.step) % (TAU_FP as int)) as i64,
        sample: (m.sample + 1) as u64,
    }
}

/// The mixer state and output sequence after feeding `s` through `m`.
pub open spec fn mix_run(m: OffsetFilter, s: Seq<ComplexSample>) -> (
    OffsetFilter,
    Seq<ComplexSample>,
)
    decreases s.len(),
{
    if s.len() == 0 {
        (m, Seq::empty())
    } else {
        let y = mix_out(m, s[0]);
        let rest = mix_run(mix_after(m), s.drop_first());
        (rest.0, seq![y] + rest.1)
    }
}

/// The scaled complex product of two values within full scale.
fn cmul(a: ComplexSample, b: ComplexSample) -> (r: ComplexSample)
    requires
        sample_within(a, SCALE as int),
        sample_within(b, SCALE as int),
    ensures
        r == cmul_scaled(a, b),
        sample_within(r, MIX_MAX as int),
{
    proof {
        lemma_mul_bounds(a.re as int, b.re as int);
        lemma_mul_bounds(a.im as int, b.im as int);
        lemma_mul_bounds(a.re as int, b.im as int);
        lemma_mul_bounds(a.im as int, b.re as int);
        lemma_div_tz_le(a.re * b.re - a.im * b.im, 2_000_000_000_000, SCALE as int);
        lemma_div_tz_le(a.re * b.im + a.im * b.re, 2_000_000_000_000, SCALE as int);
    }
    let re = div_tz(a.re * b.re - a.im * b.im, SCALE as u64);
    let im = div_tz(a.re * b.im + a.im * b.re, SCALE as u64);
    ComplexSample { re, im }
}

/// The product of two values within full scale stays within `SCALE * SCALE`.
proof fn lemma_mul_bounds(x: int, y: int)
    requires
        -(SCALE as int) <= x <= SCALE as int,
        -(SCALE as int) <= y <= SCALE as int,
    ensures
        -1_000_000_000_000 <= x * y <= 1_000_000_000_000,
{
    assert(-1_000_000_000_000 <= x * y <= 1_000_000_000_000) by (nonlinear_arith)
        requires
            -1_000_000 <= x <= 1_000_000,
            -1_000_000 <= y <= 1_000_000,
    ;
}

/// Complex multiplication preserves magnitude exactly before the scaling —
/// the squared cross terms sum to the product of the squared magnitudes —
/// and the scaling then moves each part by less than one millionth of full
/// scale.  With a rotation whose magnitude is within a constant of one,
/// the mixed sample's magnitude is therefore within a constant factor of
/// the input's, at every sample index alike.
pub proof fn lemma_cmul_magnitude(a: ComplexSample, b: ComplexSample)
    requires
        sample_within(a, SCALE as int),
        sample_within(b, SCALE as int),
    ensures
        cross_re(a, b) * cross_re(a, b) + cross_im(a, b) * cross_im(a, b) == (a.re * a.re + a.im
            * a.im) * (b.re * b.re + b.im * b.im),
        -(SCALE as int) < SCALE * (cmul_scaled(a, b).re as int) - cross_re(a, b) < SCALE,
        -(SCALE as int) < SCALE * (cmul_scaled(a, b).im as int) - cross_im(a, b) < SCALE,
{
    let nr = cross_re(a, b);
    let ni = cross_im(a, b);
    lemma_brahmagupta(a.re as int, a.im as int, b.re as int, b.im as int);
    lemma_mul_bounds(a.re as int, b.re as int);
    lemma_mul_bounds(a.im as int, b.im as int);
    lemma_mul_bounds(a.re as int, b.im as int);
    lemma_mul_bounds(a.im as int, b.re as int);
    lemma_div_tz_le(nr, 2_000_000_000_000, SCALE as int);
    lemma_div_tz_le(ni, 2_000_000_000_000, SCALE as int);
    lemma_div_tz_step(nr);
    lemma_div_tz_step(ni);
}

/// The two-square identity: the squared parts of a complex product sum to
/// the product of the squared magnitudes.
proof fn lemma_brahmagupta(p: int, q: int, r: int, s: int)
    ensures
        (p * r - q * s) * (p * r - q * s) + (p * s + q * r) * (p * s + q * r) == (p * p + q * q) * (
        r * r + s * s),
{
    let a = p * r;
    let b = q * s;
    let c = p * s;
    let d = q * r;
    assert((a - b) * (a - b) + (c + d) * (c + d) == a * a + b * b + c * c + d * d - 2 * (a * b) + 2
        * (c * d)) by (nonlinear_arith);
    assert(a * b == c * d) by (nonlinear_arith)
        requires
            a == p * r,
            b == q * s,
            c == p * s,
            d == q * r,
    ;
    assert(a * a == (p * p) * (r * r) && b * b == (q * q) * (s * s) && c * c == (p * p) * (s * s)
        && d * d == (q * q) * (r * r)) by (nonlinear_arith)
        requires
            a == p * r,
            b == q * s,
            c == p * s,
            d == q * r,
    ;
    assert((p * p + q * q) * (r * r + s * s) == (p * p) * (r * r) + (p * p) * (s * s) + (q * q) * (
    r * r) + (q * q) * (s * s)) by (nonlinear_arith);
}

/// Scaling by `SCALE` with rounding toward zero loses less than one unit.
proof fn lemma_div_tz_step(n: int)
    requires
        -2_000_000_000_000 <= n <= 2_000_000_000_000,
    ensures
        -(SCALE as int) < SCALE * div_tz_spec(n, SCALE as int) - n < SCALE,
{
    if n >= 0 {
        lemma_fundamental_div_mod(n, SCALE as int);
    } else {
        lemma_fundamental_div_mod(-n, SCALE as int);
    }
}

impl OffsetFilter {
    /// The state invariant: the step and phase lie within one turn, and
    /// the phase is exactly the running sample index times the step,
    /// modulo one turn.
    pub open spec fn wf(self) -> bool {
        &&& 0 <= self.step < TAU_FP
        &&& 0 <= self.phase < TAU_FP
        &&& self.phase == (self.sample * self.step) % (TAU_FP as int)
    }

    /// A mixer with the given per-sample phase advance, at phase zero.
    pub fn new(offset_step: i64) -> (r: OffsetFilter)
        requires
            0 <= offset_step < TAU_FP,
        ensures
            r == (OffsetFilter { step: offset_step, phase: 0i64, sample: 0u64 }),
            r.wf(),
    {
        proof {
            assert((0 as u64) * offset_step == 0) by (nonlinear_arith);
            lemma_small_mod(0nat, TAU_FP as nat);
        }
        OffsetFilter { step: offset_step, phase: 0, sample: 0 }
    }

    /// Translate one sample and advance the phase by one step.
    pub fn filter(&mut self, iq: ComplexSample) -> (r: ComplexSample)
        requires
            old(self).wf(),
            old(self).sample < u64::MAX,
            sample_within(iq, SCALE as int),
        ensures
            r == mix_out(*old(self), iq),
            *final(self) == mix_after(*old(self)),
            final(self).wf(),
            sample_within(r, MIX_MAX as int),
    {
        let c = cos_fp(self.phase);
        let s = sin_fp(self.phase);
        let rot = ComplexSample { re: c, im: -s };
        let out = cmul(iq, rot);
        let ghost t = self.sample as int;
        let ghost st = self.step as int;
        self.phase = turn_reduce(self.phase + self.step);
        self.sample = self.sample + 1;
        proof {
            lemma_small_mod(st as nat, TAU_FP as nat);
            lemma_add_mod_noop(t * st, st, TAU_FP as int);
            assert((t + 1) * st == t * st + st) by (nonlinear_arith);
        }
        out
    }

    /// Translate one buffer to baseband, advancing the phase accumulator
    /// by its length.
    pub fn process(&mut self, input: &Vec<ComplexSample>) -> (out: Vec<ComplexSample>)
        requires
            old(self).wf(),
            old(self).sample + input@.len() <= u64::MAX,
            forall|i: int|
                0 <= i < input@.len() ==> sample_within(#[trigger] input@[i], SCALE as int),
        ensures
            *final(self) == mix_run(*old(self), input@).0,
            out@ == mix_run(*old(self), input@).1,
            final(self).wf(),
            final(self).sample == old(self).sample + input@.len(),
            out@.len() == input@.len(),
            forall|i: int| 0 <= i < out@.len() ==> sample_within(#[trigger] out@[i], MIX_MAX as int),
    {
        let ghost m0 = *self;
        let mut out: Vec<ComplexSample> = Vec::new();
        let mut i: usize = 0;
        while i < input.len()
            invariant
                i <= input@.len(),
                m0.wf(),
                m0.sample + input@.len() <= u64::MAX,
                forall|j: int|
                    0 <= j < input@.len() ==> sample_within(#[trigger] input@[j], SCALE as int),
                self.wf(),
                *self == mix_run(m0, input@.take(i as int)).0,
                out@ == mix_run(m0, input@.take(i as int)).1,
                self.sample == m0.sample + i,
                out@.len() == i,
                forall|j: int|
                    0 <= j < out@.len() ==> sample_within(#[trigger] out@[j], MIX_MAX as int),
            decreases input@.len() - i,
        {
            proof {
                lemma_mix_run_snoc(m0, input@.take(i as int), input@[i as int]);
                assert(input@.take(i as int).push(input@[i as int]) =~= input@.take(i + 1));
            }
            let y = self.filter(input[i]);
            out.push(y);
            i = i + 1;
        }
        proof {
            assert(input@.take(input@.len() as int) =~= input@);
        }
        out
    }
}

/// Feeding a concatenation equals feeding both parts in turn.
pub proof fn lemma_mix_run_concat(m: OffsetFilter, a: Seq<ComplexSample>, b: Seq<ComplexSample>)
    ensures
        mix_run(m, a + b).0 == mix_run(mix_run(m, a).0, b).0,
        mix_run(m, a + b).1 == mix_run(m, a).1 + mix_run(mix_run(m, a).0, b).1,
    decreases a.len(),
{
    if a.len() == 0 {
        assert(a + b =~= b);
        assert(mix_run(m, a).1 + mix_run(mix_run(m, a).0, b).1 =~= mix_run(m, b).1);
    } else {
        let y = mix_out(m, a[0]);
        assert((a + b).drop_first() =~= a.drop_first() + b);
        lemma_mix_run_concat(mix_after(m), a.drop_first(), b);
        let mid = mix_run(mix_after(m), a.drop_first());
        assert(seq![y] + (mid.1 + mix_run(mid.0, b).1) =~= (seq![y] + mid.1) + mix_run(mid.0, b).1);
    }
}

/// Feeding one more sample equals feeding the prefix, then one step.
pub proof fn lemma_mix_run_snoc(m: OffsetFilter, s: Seq<ComplexSample>, x: ComplexSample)
    ensures
        mix_run(m, s.push(x)).0 == mix_after(mix_run(m, s).0),
        mix_run(m, s.push(x)).1 == mix_run(m, s).1.push(mix_out(mix_run(m, s).0, x)),
{
    let mid = mix_run(m, s);
    let y = mix_out(mid.0, x);
    lemma_mix_run_concat(m, s, seq![x]);
    assert(s.push(x) =~= s + seq![x]);
    assert(seq![x].drop_first() =~= Seq::<ComplexSample>::empty());
    assert(mix_run(mix_after(mid.0), Seq::<ComplexSample>::empty()) == (
        mix_after(mid.0),
        Seq::<ComplexSample>::empty(),
    ));
    assert(seq![y] + Seq::<ComplexSample>::empty() =~= seq![y]);
    assert(mid.1 + seq![y] =~= mid.1.push(y));
}

} // verus!
