//! The complex frontend: raw unsigned byte pairs from the capture device
//! become centered complex samples.
//!
//! A byte `b` maps to the level `(2 * b - 255) / 255` of full scale, i.e.
//! `b / 127.5 - 1` exactly, held in millionths.

use vstd::prelude::*;

verus! {

use crate::fixed::{div_tz, div_tz_spec, lemma_div_tz_le, SCALE};

/// One IQ measurement (or one audio-sample phasor): real and imaginary
/// parts in millionths of full scale.
#[derive(Clone, Copy, Debug, PartialEq, Eq, Structural)]
pub struct ComplexSample {
    pub re: i64,
    pub im: i64,
}

/// Both parts of the sample lie within `bound` in magnitude.
pub open spec fn sample_within(s: ComplexSample, bound: int) -> bool {
    &&& -bound <= s.re <= bound
    &&& -bound <= s.im <= bound
}

impl ComplexSample {
    /// The zero sample.
    pub fn zero() -> (r: ComplexSample)
        ensures
            r == (ComplexSample { re: 0, im: 0 }),
    {
        ComplexSample { re: 0, im: 0 }
    }
}

/// The centered level of one raw byte, in millionths: `(2b - 255) * SCALE / 255`,
/// rounded toward zero.
pub open spec fn byte_level(b: u8) -> int {
    div_tz_spec((2 * b - 255) * SCALE, 255)
}

/// The wideband buffer a raw byte sequence stands for: consecutive byte
/// pairs become complex samples; an odd trailing byte is dropped.
pub open spec fn samples_of_bytes(data: Seq<u8>) -> Seq<ComplexSample> {
    Seq::new(
        data.len() / 2,
        |i: int|
            ComplexSample {
                re: byte_level(data[2 * i]) as i64,
                im: byte_level(data[2 * i + 1]) as i64,
            },
    )
}

/// The centered level of one raw byte.
fn byte_to_level(b: u8) -> (r: i64)
    ensures
        r == byte_level(b),
        -SCALE <= r <= SCALE,
{
    let n: i64 = 2 * (b as i64) - 255;
    proof {
        lemma_div_tz_le(n * SCALE, 255 * SCALE, 255);
        vstd::arithmetic::div_mod::lemma_div_multiples_vanish(SCALE as int, 255);
    }
    div_tz(n * SCALE, 255)
}

/// Convert one raw device read into a wideband buffer of complex samples.
pub fn bytes_to_samples(data: &Vec<u8>) -> (out: Vec<ComplexSample>)
    ensures
        out@ == samples_of_bytes(data@),
        out@.len() == data@.len() / 2,
        forall|i: int| 0 <= i < out@.len() ==> sample_within(#[trigger] out@[i], SCALE as int),
{
    let mut out: Vec<ComplexSample> = Vec::new();
    let n = data.len() / 2;
    let mut i: usize = 0;
    while i < n
        invariant
            n == data@.len() / 2,
            2 * n <= usize::MAX,
            i <= n,
            out@.len() == i,
            forall|j: int|
                0 <= j < i ==> #[trigger] out@[j] == samples_of_bytes(data@)[j],
            forall|j: int| 0 <= j < i ==> sample_within(#[trigger] out@[j], SCALE as int),
        decreases n - i,
    {
        let re = byte_to_level(data[2 * i]);
        let im = byte_to_level(data[2 * i + 1]);
        out.push(ComplexSample { re, im });
        i = i + 1;
    }
    proof {
        assert(out@ =~= samples_of_bytes(data@));
    }
    out
}

} // verus!
