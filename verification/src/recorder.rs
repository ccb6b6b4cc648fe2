//! The per-channel squelch and recording state machine.
//!
//! Once per buffer the channel's squelch metric is compared against its
//! threshold.  At or above the threshold the channel records: a session is
//! opened if none is, this buffer's audio is written to the sink quantized
//! to eight bits, and a transcription-rate copy is accumulated.  Below the
//! threshold an open session is finalized and handed out whole; an idle
//! channel stays idle and emits nothing.

use vstd::prelude::*;

verus! {

use crate::config::ChannelConfig;
use crate::demodulate::AUDIO_MAX;
use crate::down_sample::{ds_run, DownSample};
use crate::fixed::{clamp, clamp_spec, div_half_away, div_half_away_spec, SCALE};

/// One recording in progress.
pub struct RecordingSession {
    /// The globally unique join key for the audio file and the persistence
    /// store.
    pub id: u128,
    /// Everything written to the audio sink so far, as quantized samples.
    pub sink: Vec<i8>,
    /// The transcription-rate accumulation buffer, in millionths.
    pub transcript: Vec<i64>,
}

/// A channel is either idle or holds exactly one open session.
pub enum ChannelRecorderState {
    Idle,
    Recording { session: RecordingSession },
}

impl ChannelRecorderState {
    /// Whether a session is open.
    pub fn is_recording(&self) -> (r: bool)
        ensures
            r == (self is Recording),
    {
        match self {
            ChannelRecorderState::Idle => false,
            ChannelRecorderState::Recording { .. } => true,
        }
    }
}

/// One event for the presentation layer.
pub enum UiMessage {
    /// A transmission started on a channel.
    Receiving { idx: u32, name: String },
    /// A transmission ended; its recording is being handed off.
    Processing { idx: u32 },
    /// A finished recording: the whole quantized sink and the
    /// transcription-rate samples, keyed by the session id.
    Complete { idx: u32, session_id: u128, audio: Vec<i8>, transcript: Vec<i64> },
}

/// An audio sample quantized for an eight-bit integer sink: rounded at
/// `sample * 127`, clamped to the representable range.
pub open spec fn quantize_spec(v: int) -> int {
    clamp_spec(div_half_away_spec(v * 127, SCALE as int), -128, 127)
}

/// A whole buffer quantized for the sink.
pub open spec fn quantize_seq(s: Seq<i64>) -> Seq<i8> {
    Seq::new(s.len(), |i: int| quantize_spec(s[i] as int) as i8)
}

/// Quantize one audio sample for the eight-bit sink.
pub fn quantize(v: i64) -> (r: i8)
    requires
        -AUDIO_MAX <= v <= AUDIO_MAX,
    ensures
        r == quantize_spec(v as int),
{
    let q = div_half_away(v * 127, SCALE as u64);
    clamp(q, -128, 127) as i8
}

/// Quantize one audio buffer for the eight-bit sink.
pub fn quantize_buffer(audio: &Vec<i64>) -> (out: Vec<i8>)
    requires
        forall|i: int| 0 <= i < audio@.len() ==> -AUDIO_MAX <= #[trigger] audio@[i] <= AUDIO_MAX,
    ensures
        out@ == quantize_seq(audio@),
{
    let mut out: Vec<i8> = Vec::new();
    let mut i: usize = 0;
    while i < audio.len()
        invariant
            i <= audio@.len(),
            forall|j: int|
                0 <= j < audio@.len() ==> -AUDIO_MAX <= #[trigger] audio@[j] <= AUDIO_MAX,
            out@.len() == i,
            forall|j: int| 0 <= j < i ==> #[trigger] out@[j] == quantize_seq(audio@)[j],
        decreases audio@.len() - i,
    {
        let q = quantize(audio[i]);
        out.push(q);
        i = i + 1;
    }
    proof {
        assert(out@ =~= quantize_seq(audio@));
    }
    out
}

/// The transcription-rate samples a downsampler makes of one audio buffer.
pub open spec fn text_chunk_of(ds: DownSample, audio: Seq<i64>) -> Seq<i64> {
    ds_run(ds.in_rate as int, ds.out_rate as int, ds.acc as int, audio).1
}

/// The downsampler residue after one audio buffer.
pub open spec fn text_acc_of(ds: DownSample, audio: Seq<i64>) -> int {
    ds_run(ds.in_rate as int, ds.out_rate as int, ds.acc as int, audio).0
}

/// Relies on `uuid::Uuid::new_v4`: a freshly drawn random 128-bit
/// identifier for a new session; nothing is assumed of its value.
#[verifier::external_body]
fn fresh_session_id() -> (r: u128)
{
    uuid::Uuid::new_v4().as_u128()
}

/// Drive one channel's recorder by one buffer.  Afterwards a session is
/// open exactly when the metric was at or above the threshold; a
/// below-threshold buffer on an idle channel changes nothing and emits
/// nothing; and a finalize emits its two events, in order, exactly once.
pub fn recorder_step(
    rec: &mut ChannelRecorderState,
    text_ds: &mut DownSample,
    index: u32,
    config: &ChannelConfig,
    level: i64,
    audio: &Vec<i64>,
) -> (events: Vec<UiMessage>)
    requires
        old(text_ds).wf(),
        forall|i: int| 0 <= i < audio@.len() ==> -AUDIO_MAX <= #[trigger] audio@[i] <= AUDIO_MAX,
    ensures
        final(text_ds).wf(),
        final(text_ds).in_rate == old(text_ds).in_rate,
        final(text_ds).out_rate == old(text_ds).out_rate,
        ((*final(rec)) is Recording) <==> level >= config.squelch,
        level >= config.squelch ==> final(text_ds).acc == text_acc_of(*old(text_ds), audio@),
        level < config.squelch ==> *final(text_ds) == *old(text_ds),
        level >= config.squelch && (*old(rec)) is Idle ==> ({
            &&& events@.len() == 1
            &&& (events@[0] matches UiMessage::Receiving { idx, name } && idx == index && name@
                == config.name@)
            &&& (*final(rec))->session.sink@ == quantize_seq(audio@)
            &&& (*final(rec))->session.transcript@ == text_chunk_of(*old(text_ds), audio@)
        }),
        level >= config.squelch && (*old(rec)) is Recording ==> ({
            &&& events@.len() == 0
            &&& (*final(rec))->session.id == (*old(rec))->session.id
            &&& (*final(rec))->session.sink@ == (*old(rec))->session.sink@ + quantize_seq(audio@)
            &&& (*final(rec))->session.transcript@ == (*old(rec))->session.transcript@ + text_chunk_of(
                *old(text_ds),
                audio@,
            )
        }),
        level < config.squelch && (*old(rec)) is Idle ==> ({
            &&& events@.len() == 0
            &&& *final(rec) == *old(rec)
        }),
        level < config.squelch && (*old(rec)) is Recording ==> ({
            &&& events@.len() == 2
            &&& (events@[0] matches UiMessage::Processing { idx } && idx == index)
            &&& (events@[1] matches UiMessage::Complete { idx, session_id, audio: sink, transcript }
                && idx == index && session_id == (*old(rec))->session.id && sink@
                == (*old(rec))->session.sink@ && transcript@ == (*old(rec))->session.transcript@)
        }),
{
    if level >= config.squelch {
        let chunk = quantize_buffer(audio);
        let text_chunk = text_ds.process(audio);
        let mut cur = ChannelRecorderState::Idle;
        core::mem::swap(rec, &mut cur);
        match cur {
            ChannelRecorderState::Idle => {
                let id = fresh_session_id();
                let mut events: Vec<UiMessage> = Vec::new();
                events.push(UiMessage::Receiving { idx: index, name: config.name.clone() });
                *rec = ChannelRecorderState::Recording {
                    session: RecordingSession { id, sink: chunk, transcript: text_chunk },
                };
                events
            },
            ChannelRecorderState::Recording { session } => {
                let mut session = session;
                let mut chunk = chunk;
                session.sink.append(&mut chunk);
                let mut text_chunk = text_chunk;
                session.transcript.append(&mut text_chunk);
                *rec = ChannelRecorderState::Recording { session };
                Vec::new()
            },
        }
    } else {
        let mut cur = ChannelRecorderState::Idle;
        core::mem::swap(rec, &mut cur);
        match cur {
            ChannelRecorderState::Idle => Vec::new(),
            ChannelRecorderState::Recording { session } => {
                let mut events: Vec<UiMessage> = Vec::new();
                events.push(UiMessage::Processing { idx: index });
                events.push(
                    UiMessage::Complete {
                        idx: index,
                        session_id: session.id,
                        audio: session.sink,
                        transcript: session.transcript,
                    },
                );
                events
            },
        }
    }
}

} // verus!
