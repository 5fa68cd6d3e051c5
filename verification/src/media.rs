//! Media-plane helpers shared by the session: PCM mixing for
//! multi-source sinks.

use vstd::prelude::*;

use crate::media::codecs::downmixed;
use crate::media::codecs::duplicated;
use crate::AudioFrame;
use crate::Samples;

pub mod codecs;
pub mod rtp;

verus! {

/// The sample of `s` at index `i`, taking absent positions as silence.
pub open spec fn sample_at(s: Seq<i16>, i: int) -> int {
    if 0 <= i < s.len() {
        s[i] as int
    } else {
        0
    }
}

/// Hard clip of a mixed value to the 16-bit sample range.
pub open spec fn clamp_sample(v: int) -> i16 {
    if v > i16::MAX as int {
        i16::MAX
    } else if v < i16::MIN as int {
        i16::MIN
    } else {
        v as i16
    }
}

/// The mix of two PCM buffers: samples summed pairwise and hard-clipped,
/// with the shorter buffer extended by silence.
pub open spec fn mixed(a: Seq<i16>, b: Seq<i16>) -> Seq<i16> {
    Seq::new(
        if a.len() >= b.len() {
            a.len()
        } else {
            b.len()
        },
        |i: int| clamp_sample(sample_at(a, i) + sample_at(b, i)),
    )
}

/// Mix two aligned PCM buffers for a multi-source sink: sum as `i32`
/// and clamp to `i16::MIN..=i16::MAX` (hard clip). The shorter buffer
/// is treated as silence past its end.
pub fn mix_pcm(a: &[i16], b: &[i16]) -> (r: Vec<i16>)
    ensures
        r@ == mixed(a@, b@),
{
    let n: usize = if a.len() >= b.len() {
        a.len()
    } else {
        b.len()
    };
    let mut out: Vec<i16> = Vec::new();
    let mut i: usize = 0;
    while i < n
        invariant
            i <= n,
            n == if a@.len() >= b@.len() {
                a@.len()
            } else {
                b@.len()
            },
            out@.len() == i,
            forall|j: int|
                0 <= j < i ==> out@[j] == clamp_sample(sample_at(a@, j) + sample_at(b@, j)),
        decreases n - i,
    {
        let av: i32 = if i < a.len() {
            a[i] as i32
        } else {
            0
        };
        let bv: i32 = if i < b.len() {
            b[i] as i32
        } else {
            0
        };
        let sum: i32 = av + bv;
        let clipped: i16 = if sum > i16::MAX as i32 {
            i16::MAX
        } else if sum < i16::MIN as i32 {
            i16::MIN
        } else {
            sum as i16
        };
        out.push(clipped);
        i = i + 1;
    }
    proof {
        assert(out@ =~= mixed(a@, b@));
    }
    out
}

/// How long an unmatched frame may wait for a mixing partner before
/// it is emitted alone, in milliseconds.
pub const MIX_SOLO_DEADLINE_MS: u64 = 40;

/// What the mixer does with two candidate frames for one sink.
#[derive(Debug, Clone, Copy, PartialEq, Eq, Structural)]
pub enum MixDecision {
    /// The timestamps align within tolerance: sum and clip.
    MixTogether,
    /// Out of tolerance and the deadline has not passed: hold the
    /// earlier frame until a matching slice arrives.
    HoldEarlier,
    /// Out of tolerance past the deadline: emit the earlier frame
    /// unmixed.
    EmitSoloEarlier,
}

/// The distance between two frame timestamps.
pub open spec fn timestamp_distance(a: u64, b: u64) -> int {
    if a >= b {
        a - b
    } else {
        b - a
    }
}

/// Decide the tie-break for a multi-source sink: frames are mixed
/// when their timestamps lie within one frame duration of each
/// other; an out-of-tolerance frame waits for a matching slice until
/// the deadline elapses and then goes out alone.
pub fn align_for_mix(a_ts: u64, b_ts: u64, frame_duration_ms: u64, waited_ms: u64) -> (r:
    MixDecision)
    ensures
        timestamp_distance(a_ts, b_ts) <= frame_duration_ms ==> r == MixDecision::MixTogether,
        timestamp_distance(a_ts, b_ts) > frame_duration_ms && waited_ms < MIX_SOLO_DEADLINE_MS
            ==> r == MixDecision::HoldEarlier,
        timestamp_distance(a_ts, b_ts) > frame_duration_ms && waited_ms >= MIX_SOLO_DEADLINE_MS
            ==> r == MixDecision::EmitSoloEarlier,
{
    let gap: u64 = if a_ts >= b_ts {
        a_ts - b_ts
    } else {
        b_ts - a_ts
    };
    if gap <= frame_duration_ms {
        MixDecision::MixTogether
    } else if waited_ms < MIX_SOLO_DEADLINE_MS {
        MixDecision::HoldEarlier
    } else {
        MixDecision::EmitSoloEarlier
    }
}

/// How one frame's payload relates to another's after the default
/// channel transform from `from_ch` to `to_ch`: PCM is duplicated
/// into stereo or downmixed to mono as the counts ask; anything not
/// linear PCM, or any other pair of counts, passes unchanged.
pub open spec fn samples_adapted(s: Samples, from_ch: u16, to_ch: u16, r: Samples) -> bool {
    match s {
        Samples::PCM { samples: sv } => {
            &&& (r matches Samples::PCM { samples: rv } && (if from_ch == 1 && to_ch == 2 {
                rv@ == duplicated(sv@)
            } else if from_ch == 2 && to_ch == 1 {
                rv@ == downmixed(sv@)
            } else {
                rv@ == sv@
            }))
        },
        Samples::RTP { .. } => r == s,
        Samples::Empty => r == s,
    }
}

/// Apply the session's default transform for a channel-count
/// mismatch to one frame: its PCM is adapted between mono and
/// stereo; its identity, clock and rate are untouched.
pub fn adapt_frame_channels(frame: AudioFrame, from_ch: u16, to_ch: u16) -> (r: AudioFrame)
    requires
        frame.samples matches Samples::PCM { samples: sv } ==> sv@.len() * 2 <= usize::MAX,
    ensures
        r.track_id == frame.track_id,
        r.timestamp == frame.timestamp,
        r.sample_rate == frame.sample_rate,
        samples_adapted(frame.samples, from_ch, to_ch, r.samples),
{
    let AudioFrame { track_id, samples, timestamp, sample_rate } = frame;
    let adapted: Samples = match samples {
        Samples::PCM { samples: sv } => {
            if from_ch == 1 && to_ch == 2 {
                Samples::PCM { samples: crate::media::codecs::duplicate_to_stereo(&sv) }
            } else if from_ch == 2 && to_ch == 1 {
                Samples::PCM { samples: crate::media::codecs::downmix_stereo(&sv) }
            } else {
                Samples::PCM { samples: sv }
            }
        },
        other => other,
    };
    AudioFrame { track_id, samples: adapted, timestamp, sample_rate }
}

} // verus!


