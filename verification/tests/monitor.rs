use sdr_monitor::channel::ChannelState;
use sdr_monitor::config::ChannelConfig;
use sdr_monitor::monitor::{Channel, Monitor};
use sdr_monitor::recorder::{quantize, UiMessage};
use sdr_monitor::sample::bytes_to_samples;

fn test_channel(squelch: i64) -> Channel {
    test_channel_at(0, squelch)
}

fn test_channel_at(index: u32, squelch: i64) -> Channel {
    Channel::new(
        index,
        ChannelConfig {
            name: "main".to_string(),
            freq: 156_800_000,
            squelch,
            gain: 1_000_000,
        },
        250_000,
        44_100,
        16_000,
        0,
    )
}

#[test]
fn end_to_end_squelch_scenario() {
    // One channel at threshold 0.05; five buffers whose RMS is quiet,
    // quiet, loud, loud, quiet.  Expect exactly one Receiving, one
    // Processing and one Complete, in that order, and a sink holding audio
    // derived only from the two loud buffers.
    let mut monitor = Monitor::new(vec![test_channel(50_000)]);
    let quiet = vec![128u8; 16_384];
    let loud = vec![160u8; 16_384];
    let buffers = [&quiet, &quiet, &loud, &loud, &quiet];

    // A twin pipeline state computes what the two loud buffers should have
    // written to the sink.
    let mut twin = ChannelState::new(250_000, 44_100, 16_000, 0);
    let mut expected_sink: Vec<i8> = Vec::new();
    let mut events: Vec<UiMessage> = Vec::new();

    for (k, bytes) in buffers.iter().enumerate() {
        let samples = bytes_to_samples(bytes);
        let (audio, level) = twin.process_buffer(&samples, 1_000_000);
        let lively = k == 2 || k == 3;
        assert_eq!(level >= 50_000, lively);
        if lively {
            for v in &audio {
                expected_sink.push(quantize(*v));
            }
        }

        assert!(monitor.has_headroom(bytes.len()));
        events.extend(monitor.process_wideband(bytes));
        // A session is open exactly after a loud buffer.
        assert_eq!(monitor.channels[0].recorder.is_recording(), lively);
    }

    assert_eq!(events.len(), 3);
    assert!(matches!(events[0], UiMessage::Receiving { idx: 0, .. }));
    assert!(matches!(events[1], UiMessage::Processing { idx: 0 }));
    match &events[2] {
        UiMessage::Complete { idx, audio, .. } => {
            assert_eq!(*idx, 0);
            assert!(!audio.is_empty());
            assert_eq!(audio, &expected_sink);
        }
        _ => panic!("expected a completion event"),
    }
}

#[test]
fn split_buffers_match_one_stream() {
    // Processing two buffers through one state equals processing their
    // concatenation: the filter state carries everything across the
    // boundary, exactly.
    let offset_step: i64 = 10_000;
    let mut split_state = ChannelState::new(250_000, 44_100, 16_000, offset_step);
    let mut whole_state = ChannelState::new(250_000, 44_100, 16_000, offset_step);

    let b1: Vec<u8> = (0..400u32).map(|i| (i % 251) as u8).collect();
    let b2: Vec<u8> = (0..300u32).map(|i| ((i * 7 + 13) % 256) as u8).collect();
    let mut whole = b1.clone();
    whole.extend(b2.iter().copied());

    let s1 = bytes_to_samples(&b1);
    let s2 = bytes_to_samples(&b2);
    let sw = bytes_to_samples(&whole);

    let (audio1, _) = split_state.process_buffer(&s1, 10_000_000);
    let (audio2, _) = split_state.process_buffer(&s2, 10_000_000);
    let (audio_whole, _) = whole_state.process_buffer(&sw, 10_000_000);

    let mut audio_split = audio1.clone();
    audio_split.extend(audio2.iter().copied());
    assert_eq!(audio_split, audio_whole);
    assert_eq!(split_state, whole_state);
}

#[test]
fn channels_are_independent() {
    // Two channels with different thresholds see the same buffer; only the
    // more sensitive one opens a session.
    let mut sensitive = test_channel(10_000);
    let mut deaf = test_channel(900_000);
    let loud = bytes_to_samples(&vec![160u8; 2_000]);
    let ev1 = sensitive.process(&loud);
    let ev2 = deaf.process(&loud);
    assert_eq!(ev1.len(), 1);
    assert!(ev2.is_empty());
    assert!(sensitive.recorder.is_recording());
    assert!(!deaf.recorder.is_recording());
}

#[test]
fn events_follow_channel_index_order() {
    let ch0 = test_channel_at(0, 10_000);
    let ch1 = test_channel_at(1, 10_000);
    let mut monitor = Monitor::new(vec![ch0, ch1]);
    let loud = vec![160u8; 2_000];
    let events = monitor.process_wideband(&loud);
    assert_eq!(events.len(), 2);
    assert!(matches!(events[0], UiMessage::Receiving { idx: 0, .. }));
    assert!(matches!(events[1], UiMessage::Receiving { idx: 1, .. }));
}
