//! The orchestration step: one wideband buffer, fanned out to every
//! channel in index order.
//!
//! The host owns the capture device and the loop; this module owns
//! everything the loop decides: the frontend conversion, each channel's
//! pipeline, and each channel's recorder, and it hands back the events the
//! host must act on, in order.

use vstd::prelude::*;

verus! {

use crate::channel::{pipeline_spec, ChannelState};
use crate::config::ChannelConfig;
use crate::demodulate::BUF_MAX;
use crate::fixed::SCALE;
use crate::recorder::{
    quantize_seq, recorder_step, text_acc_of, text_chunk_of, ChannelRecorderState, UiMessage,
};
use crate::sample::{bytes_to_samples, sample_within, samples_of_bytes, ComplexSample};

/// One channel slot: its fixed configuration and index, its streaming
/// pipeline state, and its recorder.
pub struct Channel {
    pub index: u32,
    pub config: ChannelConfig,
    pub state: ChannelState,
    pub recorder: ChannelRecorderState,
}

/// The squelch metric this buffer yields for this channel.
pub open spec fn chan_level(c: Channel, s: Seq<ComplexSample>) -> int {
    pipeline_spec(c.state, c.config.gain as int, s).2
}

/// The audio this buffer yields for this channel.
pub open spec fn chan_audio(c: Channel, s: Seq<ComplexSample>) -> Seq<i64> {
    pipeline_spec(c.state, c.config.gain as int, s).1
}

/// The pipeline state after this buffer, before the recorder touches the
/// transcription residue.
pub open spec fn chan_state_after(c: Channel, s: Seq<ComplexSample>) -> ChannelState {
    pipeline_spec(c.state, c.config.gain as int, s).0
}

/// Whether this buffer is recorded on this channel.
pub open spec fn chan_writes(c: Channel, s: Seq<ComplexSample>) -> bool {
    chan_level(c, s) >= c.config.squelch
}

/// How one buffer takes a channel from `pre` to `post`: the pipeline state
/// advances deterministically, and the recorder follows the transition
/// table; only a fresh session's identifier is not determined here.
pub open spec fn channel_stepped(pre: Channel, s: Seq<ComplexSample>, post: Channel) -> bool {
    let st1 = chan_state_after(pre, s);
    let audio = chan_audio(pre, s);
    &&& post.index == pre.index
    &&& post.config == pre.config
    &&& (post.recorder is Recording <==> chan_writes(pre, s))
    &&& if chan_writes(pre, s) {
        &&& post.state == (ChannelState {
            text_ds: crate::down_sample::DownSample {
                in_rate: st1.text_ds.in_rate,
                out_rate: st1.text_ds.out_rate,
                acc: text_acc_of(st1.text_ds, audio) as u64,
            },
            ..st1
        })
        &&& (pre.recorder is Idle ==> post.recorder->session.sink@ == quantize_seq(audio)
            && post.recorder->session.transcript@ == text_chunk_of(st1.text_ds, audio))
        &&& (pre.recorder is Recording ==> post.recorder->session.id == pre.recorder->session.id
            && post.recorder->session.sink@ == pre.recorder->session.sink@ + quantize_seq(audio)
            && post.recorder->session.transcript@ == pre.recorder->session.transcript@
            + text_chunk_of(st1.text_ds, audio))
    } else {
        &&& post.state == st1
        &&& post.recorder is Idle
        &&& (pre.recorder is Idle ==> post.recorder == pre.recorder)
    }
}

/// How many events one buffer makes a channel emit.
pub open spec fn channel_event_count(pre: Channel, s: Seq<ComplexSample>) -> int {
    if chan_writes(pre, s) {
        if pre.recorder is Idle {
            1int
        } else {
            0int
        }
    } else {
        if pre.recorder is Recording {
            2int
        } else {
            0int
        }
    }
}

/// The events one buffer makes a channel emit: `Receiving` when a session
/// opens; `Processing` then `Complete`, carrying the whole finished
/// session, when one closes; nothing otherwise.
pub open spec fn channel_events_ok(pre: Channel, s: Seq<ComplexSample>, evs: Seq<UiMessage>) -> bool {
    if chan_writes(pre, s) {
        if pre.recorder is Idle {
            &&& evs.len() == 1
            &&& (evs[0] matches UiMessage::Receiving { idx, name } && idx == pre.index && name@
                == pre.config.name@)
        } else {
            evs.len() == 0
        }
    } else {
        if pre.recorder is Recording {
            &&& evs.len() == 2
            &&& (evs[0] matches UiMessage::Processing { idx } && idx == pre.index)
            &&& (evs[1] matches UiMessage::Complete { idx, session_id, audio, transcript } && idx
                == pre.index && session_id == pre.recorder->session.id && audio@
                == pre.recorder->session.sink@ && transcript@ == pre.recorder->session.transcript@)
        } else {
            evs.len() == 0
        }
    }
}

/// The events of a whole buffer: each channel's events in index order,
/// concatenated.
pub open spec fn monitor_events_ok(
    cs: Seq<Channel>,
    s: Seq<ComplexSample>,
    evs: Seq<UiMessage>,
) -> bool
    decreases cs.len(),
{
    if cs.len() == 0 {
        evs.len() == 0
    } else {
        let k = channel_event_count(cs[0], s);
        &&& evs.len() >= k
        &&& channel_events_ok(cs[0], s, evs.take(k))
        &&& monitor_events_ok(cs.drop_first(), s, evs.skip(k))
    }
}

/// One more channel's events append to the buffer's event sequence.
proof fn lemma_monitor_events_snoc(
    cs: Seq<Channel>,
    s: Seq<ComplexSample>,
    evs: Seq<UiMessage>,
    c: Channel,
    e2: Seq<UiMessage>,
)
    requires
        monitor_events_ok(cs, s, evs),
        channel_events_ok(c, s, e2),
        e2.len() == channel_event_count(c, s),
    ensures
        monitor_events_ok(cs.push(c), s, evs + e2),
    decreases cs.len(),
{
    if cs.len() == 0 {
        assert(evs.len() == 0);
        assert(evs + e2 =~= e2);
        assert(cs.push(c)[0] == c);
        assert(cs.push(c).drop_first() =~= Seq::<Channel>::empty());
        let k = channel_event_count(c, s);
        assert(e2.take(k) =~= e2);
        assert(e2.skip(k) =~= Seq::<UiMessage>::empty());
        assert(monitor_events_ok(Seq::<Channel>::empty(), s, Seq::<UiMessage>::empty()));
        assert(channel_events_ok(c, s, e2.take(k)));
        assert((evs + e2).take(k) == e2.take(k));
        assert((evs + e2).skip(k) == e2.skip(k));
    } else {
        let k = channel_event_count(cs[0], s);
        assert(cs.push(c)[0] == cs[0]);
        assert(cs.push(c).drop_first() =~= cs.drop_first().push(c));
        assert((evs + e2).take(k) =~= evs.take(k));
        assert((evs + e2).skip(k) =~= evs.skip(k) + e2);
        lemma_monitor_events_snoc(cs.drop_first(), s, evs.skip(k), c, e2);
    }
}

impl Channel {
    /// The channel invariant.
    pub open spec fn wf(self) -> bool {
        &&& self.config.wf()
        &&& self.state.wf()
    }

    /// A fresh idle channel.
    pub fn new(
        index: u32,
        config: ChannelConfig,
        capture_rate: u32,
        audio_rate: u32,
        transcribe_rate: u32,
        offset_step: i64,
    ) -> (r: Channel)
        requires
            config.wf(),
            1 <= capture_rate <= 1_000_000_000,
            1 <= audio_rate <= capture_rate,
            1 <= transcribe_rate <= audio_rate,
            0 <= offset_step < crate::fixed::TAU_FP,
        ensures
            r.wf(),
            r.index == index,
            r.config == config,
            r.recorder is Idle,
            r.state.mixer.sample == 0,
    {
        Channel {
            index,
            config,
            state: ChannelState::new(capture_rate, audio_rate, transcribe_rate, offset_step),
            recorder: ChannelRecorderState::Idle,
        }
    }

    /// Run one wideband buffer through this channel: pipeline, squelch
    /// decision, recorder transition; the returned events are what the
    /// host must act on for this channel, in order.
    pub fn process(&mut self, samples: &Vec<ComplexSample>) -> (events: Vec<UiMessage>)
        requires
            old(self).wf(),
            1 <= samples@.len() <= BUF_MAX,
            forall|i: int|
                0 <= i < samples@.len() ==> sample_within(#[trigger] samples@[i], SCALE as int),
            old(self).state.mixer.sample + samples@.len() <= u64::MAX,
        ensures
            final(self).wf(),
            channel_stepped(*old(self), samples@, *final(self)),
            channel_events_ok(*old(self), samples@, events@),
            events@.len() == channel_event_count(*old(self), samples@),
            ((*final(self)).recorder is Recording) <==> chan_level(*old(self), samples@) >= old(
                self,
            ).config.squelch,
    {
        let (audio, level) = self.state.process_buffer(samples, self.config.gain);
        let events = recorder_step(
            &mut self.recorder,
            &mut self.state.text_ds,
            self.index,
            &self.config,
            level,
            &audio,
        );
        events
    }
}

/// All the channels of the monitor, processed in index order on every
/// buffer.
pub struct Monitor {
    pub channels: Vec<Channel>,
}

impl Monitor {
    /// The monitor invariant: every channel well formed and stored at its
    /// own index.
    pub open spec fn wf(self) -> bool {
        forall|i: int|
            0 <= i < self.channels@.len() ==> (#[trigger] self.channels@[i]).wf()
                && self.channels@[i].index == i
    }

    pub fn new(channels: Vec<Channel>) -> (r: Monitor)
        requires
            forall|i: int|
                0 <= i < channels@.len() ==> (#[trigger] channels@[i]).wf() && channels@[i].index
                    == i,
        ensures
            r.wf(),
            r.channels@ == channels@,
    {
        Monitor { channels }
    }

    /// Whether every channel's phase accumulator can still advance by
    /// `len` samples; the host checks this before each buffer.
    pub fn has_headroom(&self, len: usize) -> (r: bool)
        ensures
            r == forall|i: int|
                0 <= i < self.channels@.len() ==> (#[trigger] self.channels@[i]).state.mixer.sample
                    + len <= u64::MAX,
    {
        let mut i: usize = 0;
        let mut ok = true;
        while i < self.channels.len()
            invariant
                i <= self.channels@.len(),
                ok == forall|j: int|
                    0 <= j < i ==> (#[trigger] self.channels@[j]).state.mixer.sample + len
                        <= u64::MAX,
            decreases self.channels@.len() - i,
        {
            if self.channels[i].state.mixer.sample > u64::MAX - len as u64 {
                ok = false;
            }
            i = i + 1;
        }
        ok
    }

    /// One iteration of the monitor: convert one device read and run every
    /// channel on it, in index order.  The returned events are every
    /// channel's events, concatenated in that order.
    pub fn process_wideband(&mut self, data: &Vec<u8>) -> (events: Vec<UiMessage>)
        requires
            old(self).wf(),
            2 <= data@.len(),
            data@.len() / 2 <= BUF_MAX,
            forall|i: int|
                0 <= i < old(self).channels@.len() ==> (#[trigger] old(
                    self,
                ).channels@[i]).state.mixer.sample + data@.len() / 2 <= u64::MAX,
        ensures
            final(self).wf(),
            final(self).channels@.len() == old(self).channels@.len(),
            forall|i: int|
                0 <= i < old(self).channels@.len() ==> channel_stepped(
                    old(self).channels@[i],
                    samples_of_bytes(data@),
                    #[trigger] final(self).channels@[i],
                ),
            monitor_events_ok(old(self).channels@, samples_of_bytes(data@), events@),
            forall|i: int|
                0 <= i < old(self).channels@.len()
                    ==> ((#[trigger] final(self).channels@[i]).recorder is Recording
                    <==> chan_writes(old(self).channels@[i], samples_of_bytes(data@))),
    {
        let samples = bytes_to_samples(data);
        let ghost pre = self.channels@;
        let ghost sseq = samples@;
        let mut work: Vec<Channel> = Vec::new();
        core::mem::swap(&mut self.channels, &mut work);
        let mut events: Vec<UiMessage> = Vec::new();
        let n = work.len();
        let mut i: usize = 0;
        while i < n
            invariant
                i <= n,
                n == pre.len(),
                sseq == samples_of_bytes(data@),
                1 <= sseq.len() <= BUF_MAX,
                samples@ == sseq,
                forall|j: int| 0 <= j < sseq.len() ==> sample_within(#[trigger] sseq[j], SCALE as int),
                forall|j: int|
                    0 <= j < n ==> (#[trigger] pre[j]).wf() && pre[j].index == j
                        && pre[j].state.mixer.sample + sseq.len() <= u64::MAX,
                work@ == pre.skip(i as int),
                self.channels@.len() == i,
                forall|j: int|
                    0 <= j < i ==> (#[trigger] self.channels@[j]).wf() && self.channels@[j].index
                        == j,
                forall|j: int|
                    0 <= j < i ==> channel_stepped(pre[j], sseq, #[trigger] self.channels@[j]),
                monitor_events_ok(pre.take(i as int), sseq, events@),
            decreases n - i,
        {
            proof {
                assert(work@[0] == pre[i as int]);
            }
            let mut c = work.remove(0);
            let mut evs = c.process(&samples);
            proof {
                lemma_monitor_events_snoc(pre.take(i as int), sseq, events@, pre[i as int], evs@);
                assert(pre.take(i as int).push(pre[i as int]) =~= pre.take(i + 1));
                assert(work@ =~= pre.skip(i + 1));
            }
            events.append(&mut evs);
            self.channels.push(c);
            i = i + 1;
        }
        proof {
            assert(pre.take(n as int) =~= pre);
        }
        events
    }
}

} // verus!
