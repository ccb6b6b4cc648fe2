use sdr_monitor::angle::{atan2_fp, cos_fp, sin_fp, wrap_angle, PI_2_FP, PI_4_FP};
use sdr_monitor::demodulate::rms;
use sdr_monitor::down_sample::DownSample;
use sdr_monitor::fixed::{PI_FP, SCALE, TAU_FP};
use sdr_monitor::low_pass::LowPassFilter;
use sdr_monitor::offset::OffsetFilter;
use sdr_monitor::sample::{bytes_to_samples, ComplexSample};

#[test]
fn byte_pair_maps_to_centered_sample() {
    let out = bytes_to_samples(&vec![0, 255]);
    assert_eq!(out.len(), 1);
    assert_eq!(out[0], ComplexSample { re: -1_000_000, im: 1_000_000 });
}

#[test]
fn odd_trailing_byte_is_dropped() {
    let out = bytes_to_samples(&vec![0, 255, 7]);
    assert_eq!(out.len(), 1);
    assert!(bytes_to_samples(&vec![9]).is_empty());
}

#[test]
fn bytes_near_the_midpoint_map_near_zero() {
    let out = bytes_to_samples(&vec![128, 127]);
    assert_eq!(out[0], ComplexSample { re: 3_921, im: -3_921 });
}

#[test]
fn wrap_angle_corrects_minus_six_radians() {
    // -6.0 rad is below -pi, so one full turn is added: about +0.283 rad.
    let wrapped = wrap_angle(-6_000_000);
    assert_eq!(wrapped, -6_000_000 + TAU_FP);
    assert_eq!(wrapped, 283_186);
    assert!(-PI_FP <= wrapped && wrapped <= PI_FP);
}

#[test]
fn wrap_angle_keeps_every_difference_in_one_turn() {
    for d in [-TAU_FP, -4_000_000, -PI_FP, -1, 0, 1, PI_FP, 4_000_000, TAU_FP] {
        let w = wrap_angle(d);
        assert!(-PI_FP <= w && w <= PI_FP);
    }
    assert_eq!(wrap_angle(4_000_000), 4_000_000 - TAU_FP);
    assert_eq!(wrap_angle(1_000_000), 1_000_000);
}

#[test]
fn atan2_cardinal_directions() {
    assert_eq!(atan2_fp(0, 1_000_000), 0);
    assert_eq!(atan2_fp(1_000_000, 0), PI_2_FP);
    assert_eq!(atan2_fp(0, -1_000_000), PI_FP);
    assert_eq!(atan2_fp(-1_000_000, 0), -PI_2_FP);
    assert_eq!(atan2_fp(0, 0), 0);
}

#[test]
fn atan2_diagonal_is_an_eighth_turn() {
    assert_eq!(atan2_fp(1_000_000, 1_000_000), PI_4_FP);
    assert_eq!(atan2_fp(-1_000_000, 1_000_000), -PI_4_FP);
}

#[test]
fn rms_of_constant_buffer_is_exact() {
    // |0.3 + 0.4i| = 0.5 exactly, whatever the buffer length.
    let v = vec![ComplexSample { re: 300_000, im: 400_000 }; 100];
    assert_eq!(rms(&v), 500_000);
}

#[test]
fn rms_is_the_integer_square_root_of_mean_power() {
    let v = vec![ComplexSample { re: -3, im: 4 }];
    assert_eq!(rms(&v), 5);
    let w = vec![ComplexSample { re: 0, im: 0 }; 7];
    assert_eq!(rms(&w), 0);
}

#[test]
fn low_pass_first_sample_primes_the_filter() {
    let mut f = LowPassFilter {
        alpha: 500_000,
        primed: false,
        last: ComplexSample { re: 0, im: 0 },
    };
    let first = f.filter(ComplexSample { re: 1_000, im: -2_000 });
    assert_eq!(first, ComplexSample { re: 1_000, im: -2_000 });
    // With alpha one half, the next output moves half way toward the input.
    let second = f.filter(ComplexSample { re: 0, im: 0 });
    assert_eq!(second, ComplexSample { re: 500, im: -1_000 });
}

#[test]
fn low_pass_alpha_is_the_exact_rational() {
    // 2*pi*20000 / (250000 + 2*pi*20000) in millionths, rounded down.
    let f = LowPassFilter::new(250_000, 20_000);
    let tc: u64 = 6_283_186 * 20_000;
    let expected = (tc * 1_000_000) / (1_000_000u64 * 250_000 + tc);
    assert_eq!(f.alpha as u64, expected);
    assert!(!f.primed);
}

#[test]
fn downsample_count_stays_within_one_of_ideal() {
    let mut ds = DownSample::new(250_000, 44_100);
    let input: Vec<i64> = (0..1_000).collect();
    // The ideal count is 176.4; the first buffer emits 176.
    assert_eq!(ds.process(&input).len(), 176);
    // The residue is carried, so the next buffer emits 176 again and the
    // two-buffer total matches the one-stream count exactly.
    assert_eq!(ds.process(&input).len(), 176);
    let mut both = input.clone();
    both.extend(input.iter().copied());
    let mut ds2 = DownSample::new(250_000, 44_100);
    assert_eq!(ds2.process(&both).len(), 352);
}

#[test]
fn downsample_with_equal_rates_passes_everything() {
    let mut ds = DownSample::new(8, 8);
    let input: Vec<i64> = vec![1, 2, 3];
    assert_eq!(ds.process(&input), vec![1, 2, 3]);
}

#[test]
fn downsample_keeps_sample_values_untouched() {
    let mut ds = DownSample::new(3, 1);
    let input: Vec<i64> = (0..9).collect();
    // One of every three samples comes through, unchanged.
    assert_eq!(ds.process(&input), vec![2, 5, 8]);
}

#[test]
fn mixer_at_zero_offset_is_nearly_transparent() {
    // A zero step keeps the phase at zero; the rotation there is the
    // fixed-point cosine of zero, one part in a million under unity.
    let mut m = OffsetFilter::new(0);
    let input = vec![ComplexSample { re: 5_000, im: -7_000 }; 3];
    let out = m.process(&input);
    assert_eq!(out, vec![ComplexSample { re: 4_999, im: -6_999 }; 3]);
    assert_eq!(m.sample, 3);
    assert_eq!(m.phase, 0);
}

#[test]
fn mixer_quarter_turn_rotates_each_successive_sample() {
    // A quarter-turn step rotates sample t by -t quarter turns.
    let mut m = OffsetFilter::new(1_570_797);
    let input = vec![ComplexSample { re: 1_000, im: 0 }; 4];
    let out = m.process(&input);
    assert_eq!(out[0], ComplexSample { re: 999, im: 0 });
    assert_eq!(out[1], ComplexSample { re: 0, im: -999 });
    assert_eq!(out[2], ComplexSample { re: -999, im: 0 });
    assert_eq!(out[3], ComplexSample { re: 0, im: 999 });
}

#[test]
fn mixer_phase_accumulator_is_never_reset() {
    let mut m = OffsetFilter::new(123_457);
    let input = vec![ComplexSample { re: 1, im: 1 }; 10];
    m.process(&input);
    m.process(&input);
    assert_eq!(m.sample, 20);
    assert_eq!(m.phase, (20 * 123_457) % TAU_FP);
}

#[test]
fn rotation_magnitude_stays_near_unity_at_every_phase() {
    // The squared magnitude of the rotation is within four parts in a
    // thousand of one at every phase of the turn.
    let mut p: i64 = 0;
    while p < TAU_FP {
        let c = cos_fp(p);
        let s = sin_fp(p);
        let mag2 = c * c + s * s;
        assert!((990_000_000_000..=1_000_200_000_000).contains(&mag2), "phase {p}: {mag2}");
        p += 1_009;
    }
}

#[test]
fn mixer_does_not_decay_over_long_streams() {
    // Half a million samples at a generic offset: the mixed signal keeps
    // its level, and the phase is exactly the sample count times the step,
    // modulo one turn.
    let step: i64 = 123_457;
    let mut m = OffsetFilter::new(step);
    let input = vec![ComplexSample { re: 500_000, im: 0 }; 10_000];
    let mut last = Vec::new();
    for _ in 0..50 {
        last = m.process(&input);
    }
    let level = rms(&last);
    assert!((495_000..=500_500).contains(&level), "level {level}");
    assert_eq!(m.sample, 500_000);
    assert_eq!(m.phase as i128, (500_000i128 * step as i128) % TAU_FP as i128);
    assert_eq!(m.phase, 2_480_736);
}
