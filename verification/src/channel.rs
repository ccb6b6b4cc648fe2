//! The per-channel signal pipeline.
//!
//! Each buffer is mixed to baseband, low-pass filtered to the channel's
//! occupied bandwidth (which also yields the squelch metric),
//! FM-discriminated, low-pass filtered to the audio band, and downsampled
//! to the audio rate.  All of the state — the mixer phase, both filter
//! states, the discriminator lookback and the downsampler residues — lives
//! in one record per channel and is never reset across buffers.

use vstd::prelude::*;

verus! {

use crate::demodulate::{
    disc_run, lemma_disc_run_concat, rms, rms_spec, Discriminator, AUDIO_MAX, BUF_MAX, GAIN_MAX,
};
use crate::down_sample::{ds_run, lemma_ds_run_bounded, lemma_ds_run_concat, lemma_ds_run_count,
    DownSample};
use crate::fixed::SCALE;
use crate::low_pass::{
    lemma_lp_run_concat, lemma_lp_run_r_concat, lemma_lp_run_r_within, lemma_lp_run_within,
    lp_run, lp_run_r, LowPassFilter, LP_MAX,
};
use crate::offset::{lemma_mix_run_concat, mix_run, OffsetFilter, MIX_MAX};
use crate::sample::{sample_within, ComplexSample};

/// All the streaming state of one channel.
#[derive(Clone, Copy, Debug, PartialEq, Eq, Structural)]
pub struct ChannelState {
    /// The baseband mixer: the per-sample step and the running phase.
    pub mixer: OffsetFilter,
    /// The channel-isolation low-pass filter.
    pub channel_lp: LowPassFilter,
    /// The discriminator lookback: the last filtered sample of the
    /// previous buffer.
    pub disc: Discriminator,
    /// The audio-band low-pass filter.
    pub audio_lp: LowPassFilter,
    /// The capture-rate to audio-rate downsampler residue.
    pub audio_ds: DownSample,
    /// The audio-rate to transcription-rate downsampler residue.
    pub text_ds: DownSample,
}

/// What one buffer makes of a channel: the state afterwards, the audio
/// samples, and the squelch metric measured on the filtered baseband
/// signal.
pub open spec fn pipeline_spec(st: ChannelState, gain: int, s: Seq<ComplexSample>) -> (
    ChannelState,
    Seq<i64>,
    int,
) {
    let mixed = mix_run(st.mixer, s);
    let filtered = lp_run(st.channel_lp, mixed.1);
    let level = rms_spec(filtered.1);
    let raw = disc_run(gain, st.disc.last, filtered.1);
    let smooth = lp_run_r(st.audio_lp, raw.1);
    let audio = ds_run(
        st.audio_ds.in_rate as int,
        st.audio_ds.out_rate as int,
        st.audio_ds.acc as int,
        smooth.1,
    );
    (
        ChannelState {
            mixer: mixed.0,
            channel_lp: filtered.0,
            disc: Discriminator { last: raw.0 },
            audio_lp: smooth.0,
            audio_ds: DownSample {
                in_rate: st.audio_ds.in_rate,
                out_rate: st.audio_ds.out_rate,
                acc: audio.0 as u64,
            },
            text_ds: st.text_ds,
        },
        audio.1,
        level,
    )
}

impl ChannelState {
    /// The state invariant: every stage well formed and within its range.
    pub open spec fn wf(self) -> bool {
        &&& self.mixer.wf()
        &&& self.channel_lp.wf()
        &&& sample_within(self.channel_lp.last, MIX_MAX as int)
        &&& sample_within(self.disc.last, MIX_MAX as int)
        &&& self.audio_lp.wf()
        &&& sample_within(self.audio_lp.last, AUDIO_MAX as int)
        &&& self.audio_ds.wf()
        &&& self.text_ds.wf()
    }

    /// A fresh channel state: phase zero, unprimed filters, silent
    /// lookback, zero residues.
    pub fn new(
        capture_rate: u32,
        audio_rate: u32,
        transcribe_rate: u32,
        offset_step: i64,
    ) -> (r: ChannelState)
        requires
            1 <= capture_rate <= 1_000_000_000,
            1 <= audio_rate <= capture_rate,
            1 <= transcribe_rate <= audio_rate,
            0 <= offset_step < crate::fixed::TAU_FP,
        ensures
            r.wf(),
            r.mixer == (OffsetFilter { step: offset_step, phase: 0i64, sample: 0u64 }),
            !r.channel_lp.primed,
            !r.audio_lp.primed,
            r.disc.last == (ComplexSample { re: 0, im: 0 }),
            r.audio_ds.acc == 0,
            r.text_ds.acc == 0,
            r.audio_ds.in_rate == capture_rate,
            r.audio_ds.out_rate == audio_rate,
            r.text_ds.in_rate == audio_rate,
            r.text_ds.out_rate == transcribe_rate,
    {
        ChannelState {
            mixer: OffsetFilter::new(offset_step),
            channel_lp: LowPassFilter::new(capture_rate, crate::consts::CHANNEL_CUTOFF_FREQ),
            disc: Discriminator::new(),
            audio_lp: LowPassFilter::new(capture_rate, crate::consts::AUDIO_CUTOFF_FREQ),
            audio_ds: DownSample::new(capture_rate, audio_rate),
            text_ds: DownSample::new(audio_rate, transcribe_rate),
        }
    }

    /// Run one wideband buffer through the channel: the returned pair is
    /// the audio produced for this buffer and the squelch metric.
    pub fn process_buffer(&mut self, samples: &Vec<ComplexSample>, gain: i64) -> (r: (Vec<i64>, i64))
        requires
            old(self).wf(),
            0 <= gain <= GAIN_MAX,
            1 <= samples@.len() <= BUF_MAX,
            forall|i: int|
                0 <= i < samples@.len() ==> sample_within(#[trigger] samples@[i], SCALE as int),
            old(self).mixer.sample + samples@.len() <= u64::MAX,
        ensures
            *final(self) == pipeline_spec(*old(self), gain as int, samples@).0,
            r.0@ == pipeline_spec(*old(self), gain as int, samples@).1,
            r.1 == pipeline_spec(*old(self), gain as int, samples@).2,
            final(self).wf(),
            r.1 >= 0,
            r.0@.len() <= samples@.len(),
            forall|i: int| 0 <= i < r.0@.len() ==> -AUDIO_MAX <= #[trigger] r.0@[i] <= AUDIO_MAX,
            final(self).text_ds == old(self).text_ds,
            final(self).mixer.sample == old(self).mixer.sample + samples@.len(),
    {
        let ghost st0 = *self;
        let mixed = self.mixer.process(samples);
        proof {
            lemma_lp_run_within(st0.channel_lp, mixed@, MIX_MAX as int);
        }
        let filtered = self.channel_lp.process(&mixed);
        let level = rms(&filtered);
        let raw = self.disc.demodulate(&filtered, gain);
        proof {
            lemma_lp_run_r_within(st0.audio_lp, raw@, AUDIO_MAX as int);
        }
        let smooth = self.audio_lp.process_real(&raw);
        proof {
            lemma_ds_run_bounded(
                st0.audio_ds.in_rate as int,
                st0.audio_ds.out_rate as int,
                st0.audio_ds.acc as int,
                smooth@,
                AUDIO_MAX as int,
            );
            lemma_ds_run_count(
                st0.audio_ds.in_rate as int,
                st0.audio_ds.out_rate as int,
                st0.audio_ds.acc as int,
                smooth@,
            );
        }
        let audio = self.audio_ds.process(&smooth);
        (audio, level)
    }
}

/// Channelizing two consecutive buffers through the same channel state
/// gives exactly the audio, and exactly the state, of channelizing their
/// concatenation as one stream: nothing is lost or distorted at a read
/// boundary.
pub proof fn lemma_pipeline_continuity(
    st: ChannelState,
    gain: int,
    b1: Seq<ComplexSample>,
    b2: Seq<ComplexSample>,
)
    requires
        st.wf(),
    ensures
        pipeline_spec(st, gain, b1 + b2).0 == pipeline_spec(
            pipeline_spec(st, gain, b1).0,
            gain,
            b2,
        ).0,
        pipeline_spec(st, gain, b1 + b2).1 == pipeline_spec(st, gain, b1).1 + pipeline_spec(
            pipeline_spec(st, gain, b1).0,
            gain,
            b2,
        ).1,
{
    let st1 = pipeline_spec(st, gain, b1).0;
    lemma_mix_run_concat(st.mixer, b1, b2);
    let mixed1 = mix_run(st.mixer, b1);
    let mixed2 = mix_run(mixed1.0, b2);
    lemma_lp_run_concat(st.channel_lp, mixed1.1, mixed2.1);
    let filt1 = lp_run(st.channel_lp, mixed1.1);
    let filt2 = lp_run(filt1.0, mixed2.1);
    lemma_disc_run_concat(gain, st.disc.last, filt1.1, filt2.1);
    let raw1 = disc_run(gain, st.disc.last, filt1.1);
    let raw2 = disc_run(gain, raw1.0, filt2.1);
    lemma_lp_run_r_concat(st.audio_lp, raw1.1, raw2.1);
    let smooth1 = lp_run_r(st.audio_lp, raw1.1);
    let smooth2 = lp_run_r(smooth1.0, raw2.1);
    lemma_ds_run_concat(
        st.audio_ds.in_rate as int,
        st.audio_ds.out_rate as int,
        st.audio_ds.acc as int,
        smooth1.1,
        smooth2.1,
    );
    let audio1 = ds_run(
        st.audio_ds.in_rate as int,
        st.audio_ds.out_rate as int,
        st.audio_ds.acc as int,
        smooth1.1,
    );
    lemma_ds_run_count(
        st.audio_ds.in_rate as int,
        st.audio_ds.out_rate as int,
        st.audio_ds.acc as int,
        smooth1.1,
    );
    assert(st1.audio_ds.acc as int == audio1.0);
}

} // verus!
