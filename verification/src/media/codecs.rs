//! Codec adaptation between RTP payloads and linear PCM: the shared
//! stereo policy. A mono buffer fed to a stereo encoder has each
//! sample duplicated into both channels; interleaved stereo decoder
//! output is downmixed to mono by averaging the two channels as a
//! wide integer before narrowing.

use vstd::prelude::*;

pub mod g711;
pub mod l16;
pub mod opus;

verus! {

/// Truncating halving, as `/ 2` rounds in two's-complement hardware:
/// toward zero.
pub open spec fn trunc_half(s: int) -> int {
    if s >= 0 {
        s / 2
    } else {
        -((-s) / 2)
    }
}

/// The downmix of one interleaved stereo pair: the two channels
/// averaged as a wide integer, rounding toward zero.
pub open spec fn avg_sample(a: i16, b: i16) -> i16 {
    trunc_half(a as int + b as int) as i16
}

/// The mono downmix of an interleaved stereo buffer: each pair of
/// channel samples averaged; a trailing unpaired sample is dropped.
pub open spec fn downmixed(s: Seq<i16>) -> Seq<i16> {
    Seq::new((s.len() / 2) as nat, |i: int| avg_sample(s[2 * i], s[2 * i + 1]))
}

/// The interleaved stereo duplication of a mono buffer: each sample
/// written to both channels.
pub open spec fn duplicated(s: Seq<i16>) -> Seq<i16> {
    Seq::new((s.len() * 2) as nat, |i: int| s[i / 2])
}

/// Average one interleaved stereo pair into a mono sample, widening to
/// avoid overflow and rounding toward zero as the narrowing division
/// does.
pub fn avg_pair(a: i16, b: i16) -> (r: i16)
    ensures
        r == avg_sample(a, b),
{
    let sum: i32 = a as i32 + b as i32;
    if sum >= 0 {
        let half: u32 = (sum as u32) / 2;
        proof {
            assert(half as int == trunc_half(sum as int));
            assert(half <= i16::MAX);
        }
        half as i16
    } else {
        let mag: u32 = (-sum) as u32;
        let half: i32 = -((mag / 2) as i32);
        proof {
            assert(half as int == trunc_half(sum as int));
            assert(i16::MIN <= half <= 0);
        }
        half as i16
    }
}

/// Downmix an interleaved stereo buffer to mono by averaging the two
/// channels of each frame as a wide integer before narrowing back to
/// 16 bits.
pub fn downmix_stereo(pcm: &[i16]) -> (r: Vec<i16>)
    ensures
        r@ == downmixed(pcm@),
{
    let plen: usize = pcm.len();
    let n: usize = plen / 2;
    let mut out: Vec<i16> = Vec::new();
    let mut i: usize = 0;
    while i < n
        invariant
            i <= n,
            plen == pcm@.len(),
            n == pcm@.len() / 2,
            2 * n <= plen,
            out@.len() == i,
            forall|j: int| 0 <= j < i ==> out@[j] == avg_sample(pcm@[2 * j], pcm@[2 * j + 1]),
        decreases n - i,
    {
        let v: i16 = avg_pair(pcm[2 * i], pcm[2 * i + 1]);
        out.push(v);
        i = i + 1;
    }
    proof {
        assert(out@ =~= downmixed(pcm@));
    }
    out
}

/// Duplicate a mono buffer into interleaved stereo: each sample is
/// written to both channels, as a stereo Opus encoder expects.
pub fn duplicate_to_stereo(pcm: &[i16]) -> (r: Vec<i16>)
    requires
        pcm@.len() * 2 <= usize::MAX,
    ensures
        r@ == duplicated(pcm@),
{
    let mut out: Vec<i16> = Vec::new();
    let mut i: usize = 0;
    while i < pcm.len()
        invariant
            i <= pcm@.len(),
            pcm@.len() * 2 <= usize::MAX,
            out@.len() == 2 * i,
            forall|j: int| 0 <= j < 2 * i ==> out@[j] == pcm@[j / 2],
        decreases pcm@.len() - i,
    {
        let v: i16 = pcm[i];
        out.push(v);
        out.push(v);
        i = i + 1;
    }
    proof {
        assert(out@ =~= duplicated(pcm@));
    }
    out
}

/// Adapt a PCM buffer between channel layouts: the session's default
/// transform for a channel-count mismatch between a source and a
/// sink. Mono into stereo duplicates each sample into both channels;
/// stereo into mono averages each interleaved pair; matching layouts
/// pass through unchanged.
pub fn adapt_channels(pcm: &[i16], src_channels: u16, sink_channels: u16) -> (r: Vec<i16>)
    requires
        src_channels == 1 || src_channels == 2,
        sink_channels == 1 || sink_channels == 2,
        pcm@.len() * 2 <= usize::MAX,
    ensures
        src_channels == sink_channels ==> r@ == pcm@,
        src_channels == 1 && sink_channels == 2 ==> r@ == duplicated(pcm@),
        src_channels == 2 && sink_channels == 1 ==> r@ == downmixed(pcm@),
{
    if src_channels == sink_channels {
        let mut out: Vec<i16> = Vec::new();
        let mut i: usize = 0;
        while i < pcm.len()
            invariant
                i <= pcm@.len(),
                out@.len() == i,
                forall|j: int| 0 <= j < i ==> out@[j] == pcm@[j],
            decreases pcm@.len() - i,
        {
            out.push(pcm[i]);
            i = i + 1;
        }
        proof {
            assert(out@ =~= pcm@);
        }
        out
    } else if src_channels == 1 {
        duplicate_to_stereo(pcm)
    } else {
        downmix_stereo(pcm)
    }
}

/// The codecs the registry can construct.
#[derive(Debug, Clone, Copy, PartialEq, Eq, Structural)]
pub enum CodecKind {
    /// Opus, 8-48 kHz, mono or stereo; always a dynamic payload type.
    Opus,
    /// G.711 mu-law, 8 kHz mono.
    Pcmu,
    /// G.711 A-law, 8 kHz mono.
    Pcma,
    /// Linear 16-bit PCM, any rate.
    L16,
}

/// The codec a static RTP payload-type number names: mu-law on 0,
/// A-law on 8, linear PCM on 10 and 11. Numbers in the dynamic range
/// are bound by negotiation, not here.
pub open spec fn spec_codec_for_payload_type(pt: u8) -> Option<CodecKind> {
    if pt == 0 {
        Some(CodecKind::Pcmu)
    } else if pt == 8 {
        Some(CodecKind::Pcma)
    } else if pt == 10 || pt == 11 {
        Some(CodecKind::L16)
    } else {
        None
    }
}

/// Look a static RTP payload-type number up in the registry.
pub fn codec_for_payload_type(pt: u8) -> (r: Option<CodecKind>)
    ensures
        r == spec_codec_for_payload_type(pt),
{
    match pt {
        0 => Some(CodecKind::Pcmu),
        8 => Some(CodecKind::Pcma),
        10 => Some(CodecKind::L16),
        11 => Some(CodecKind::L16),
        _ => None,
    }
}

/// First payload-type number of the dynamic range.
pub const DYNAMIC_PAYLOAD_TYPE_MIN: u8 = 96;

/// Last payload-type number of the dynamic range.
pub const DYNAMIC_PAYLOAD_TYPE_MAX: u8 = 127;

/// Whether a payload-type number lies in the dynamic range that
/// negotiation may bind to a codec such as Opus.
pub fn is_dynamic_payload_type(pt: u8) -> (r: bool)
    ensures
        r == (DYNAMIC_PAYLOAD_TYPE_MIN <= pt <= DYNAMIC_PAYLOAD_TYPE_MAX),
{
    pt >= DYNAMIC_PAYLOAD_TYPE_MIN && pt <= DYNAMIC_PAYLOAD_TYPE_MAX
}

} // verus!

