use sdr_monitor::config::ChannelConfig;
use sdr_monitor::down_sample::DownSample;
use sdr_monitor::recorder::{quantize, recorder_step, ChannelRecorderState, UiMessage};

fn channel_config() -> ChannelConfig {
    ChannelConfig {
        name: "tower".to_string(),
        freq: 156_800_000,
        squelch: 50_000,
        gain: 1_000_000,
    }
}

#[test]
fn quantize_full_scale_and_rounding() {
    assert_eq!(quantize(1_000_000), 127);
    assert_eq!(quantize(-1_000_000), -127);
    assert_eq!(quantize(0), 0);
    // 0.5 * 127 = 63.5 rounds away from zero.
    assert_eq!(quantize(500_000), 64);
    assert_eq!(quantize(-500_000), -64);
    // Out-of-range samples clamp to the representable range.
    assert_eq!(quantize(3_000_000), 127);
    assert_eq!(quantize(-3_000_000), -128);
}

#[test]
fn squelch_opens_writes_and_closes_a_session() {
    let mut rec = ChannelRecorderState::Idle;
    let mut ds = DownSample::new(44_100, 16_000);
    let config = channel_config();
    let audio: Vec<i64> = vec![250_000; 10];

    // Above threshold from idle: one Receiving event, session open.
    let ev = recorder_step(&mut rec, &mut ds, 3, &config, 100_000, &audio);
    assert_eq!(ev.len(), 1);
    match &ev[0] {
        UiMessage::Receiving { idx, name } => {
            assert_eq!(*idx, 3);
            assert_eq!(name, "tower");
        }
        _ => panic!("expected a receiving event"),
    }
    assert!(rec.is_recording());

    // Still above threshold: audio accumulates, nothing is emitted.
    let ev = recorder_step(&mut rec, &mut ds, 3, &config, 80_000, &audio);
    assert!(ev.is_empty());
    assert!(rec.is_recording());

    // Below threshold: Processing then Complete, with everything written.
    let ev = recorder_step(&mut rec, &mut ds, 3, &config, 10_000, &audio);
    assert_eq!(ev.len(), 2);
    match &ev[0] {
        UiMessage::Processing { idx } => assert_eq!(*idx, 3),
        _ => panic!("expected a processing event"),
    }
    match &ev[1] {
        UiMessage::Complete { idx, audio: sink, transcript, .. } => {
            assert_eq!(*idx, 3);
            // Two buffers of ten samples each, all 0.25 of full scale:
            // round(0.25 * 127) = 32.
            assert_eq!(sink, &vec![32i8; 20]);
            // 44.1 kHz -> 16 kHz over ten samples emits 3, then, with the
            // carried residue, 4.
            assert_eq!(transcript, &vec![250_000i64; 7]);
        }
        _ => panic!("expected a completion event"),
    }
    assert!(!rec.is_recording());
}

#[test]
fn finalize_when_idle_is_a_no_op() {
    let mut rec = ChannelRecorderState::Idle;
    let mut ds = DownSample::new(44_100, 16_000);
    let config = channel_config();
    let audio: Vec<i64> = vec![100_000; 5];
    for _ in 0..3 {
        let ev = recorder_step(&mut rec, &mut ds, 0, &config, 10_000, &audio);
        assert!(ev.is_empty());
        assert!(!rec.is_recording());
    }
    assert_eq!(ds.acc, 0);
}

#[test]
fn threshold_comparison_is_inclusive() {
    let mut rec = ChannelRecorderState::Idle;
    let mut ds = DownSample::new(44_100, 16_000);
    let config = channel_config();
    let audio: Vec<i64> = vec![60_000; 4];
    let ev = recorder_step(&mut rec, &mut ds, 0, &config, 50_000, &audio);
    assert_eq!(ev.len(), 1);
    assert!(rec.is_recording());
}

#[test]
fn empty_transcript_is_possible_for_short_sessions() {
    let mut rec = ChannelRecorderState::Idle;
    let mut ds = DownSample::new(44_100, 16_000);
    let config = channel_config();
    // One audio sample is not enough for a transcription-rate sample.
    let audio: Vec<i64> = vec![400_000];
    recorder_step(&mut rec, &mut ds, 0, &config, 90_000, &audio);
    let ev = recorder_step(&mut rec, &mut ds, 0, &config, 0, &Vec::new());
    match &ev[1] {
        UiMessage::Complete { audio: sink, transcript, .. } => {
            assert_eq!(sink.len(), 1);
            assert!(transcript.is_empty());
        }
        _ => panic!("expected a completion event"),
    }
}
