//! PCM adaptation around the Opus codec: parameter normalization,
//! stereo downmix of decoded output, and mono-to-stereo duplication
//! before encode. The native codec state itself lives outside the
//! verified library; these functions carry all the sample logic
//! around each encode or decode call.

use vstd::prelude::*;

use crate::event::EventErrorKind;

use crate::media::codecs::avg_pair;
use crate::media::codecs::avg_sample;
use crate::media::codecs::downmixed;
use crate::media::codecs::duplicate_to_stereo;
use crate::media::codecs::duplicated;

verus! {

/// Largest decoded Opus frame: 120 ms at 48 kHz, two channels.
pub const OPUS_MAX_SAMPLES: usize = 11520;

/// The sample rates the Opus codec accepts; any other requested rate
/// falls back to 48 kHz.
pub open spec fn spec_normalize_opus_rate(rate: u32) -> u32 {
    if rate == 8000 || rate == 12000 || rate == 16000 || rate == 24000 || rate == 48000 {
        rate
    } else {
        48000
    }
}

/// Normalize a requested sample rate to one the Opus codec supports,
/// defaulting to 48 kHz.
pub fn normalize_opus_rate(rate: u32) -> (r: u32)
    ensures
        r == spec_normalize_opus_rate(rate),
{
    match rate {
        8000 => 8000,
        12000 => 12000,
        16000 => 16000,
        24000 => 24000,
        48000 => 48000,
        _ => 48000,
    }
}

/// Normalize a requested channel count: one stays mono, anything else
/// becomes stereo.
pub fn normalize_opus_channels(channels: u16) -> (r: u16)
    ensures
        r == if channels == 1 {
            1u16
        } else {
            2u16
        },
{
    if channels == 1 {
        1
    } else {
        2
    }
}

/// Whether the Opus codec accepts a sample rate as it stands.
pub open spec fn spec_opus_rate_supported(rate: u32) -> bool {
    rate == 8000 || rate == 12000 || rate == 16000 || rate == 24000 || rate == 48000
}

/// Check requested codec-construction parameters: an unsupported
/// rate or channel count is a codec-construction error, fatal for
/// the session, rather than being silently rebranded.
pub fn validate_opus_params(rate: u32, channels: u16) -> (r: Result<(), EventErrorKind>)
    ensures
        spec_opus_rate_supported(rate) && (channels == 1 || channels == 2) ==> r == Ok::<
            (),
            EventErrorKind,
        >(()),
        !(spec_opus_rate_supported(rate) && (channels == 1 || channels == 2)) ==> r == Err::<
            (),
            EventErrorKind,
        >(EventErrorKind::CodecInit),
{
    let rate_ok = match rate {
        8000 => true,
        12000 => true,
        16000 => true,
        24000 => true,
        48000 => true,
        _ => false,
    };
    if rate_ok && (channels == 1 || channels == 2) {
        Ok(())
    } else {
        Err(EventErrorKind::CodecInit)
    }
}

/// Extract the usable PCM from a decoder's scratch buffer: the codec
/// reported `samples_per_channel` decoded samples in each of
/// `channels` interleaved channels. Mono output is the reported
/// prefix; stereo output is downmixed to mono by channel averaging.
pub fn extract_decoded(buf: &[i16], samples_per_channel: usize, channels: u16) -> (r: Vec<i16>)
    requires
        channels == 1 || channels == 2,
        samples_per_channel * channels <= buf@.len(),
    ensures
        r@.len() == samples_per_channel,
        channels == 1 ==> r@ == buf@.subrange(0, samples_per_channel as int),
        channels == 2 ==> r@ == downmixed(buf@.subrange(0, 2 * samples_per_channel as int)),
{
    if channels == 1 {
        let mut out: Vec<i16> = Vec::new();
        let mut i: usize = 0;
        while i < samples_per_channel
            invariant
                i <= samples_per_channel,
                samples_per_channel <= buf@.len(),
                out@.len() == i,
                forall|j: int| 0 <= j < i ==> out@[j] == buf@[j],
            decreases samples_per_channel - i,
        {
            out.push(buf[i]);
            i = i + 1;
        }
        proof {
            assert(out@ =~= buf@.subrange(0, samples_per_channel as int));
        }
        out
    } else {
        let blen: usize = buf.len();
        let mut out: Vec<i16> = Vec::new();
        let mut i: usize = 0;
        while i < samples_per_channel
            invariant
                i <= samples_per_channel,
                channels == 2,
                blen == buf@.len(),
                2 * samples_per_channel <= blen,
                out@.len() == i,
                forall|j: int| 0 <= j < i ==> out@[j] == avg_sample(buf@[2 * j], buf@[2 * j + 1]),
            decreases samples_per_channel - i,
        {
            let v: i16 = avg_pair(buf[2 * i], buf[2 * i + 1]);
            out.push(v);
            i = i + 1;
        }
        proof {
            let sub = buf@.subrange(0, 2 * samples_per_channel as int);
            assert(out@ =~= downmixed(sub));
        }
        out
    }
}

/// Prepare a PCM buffer for an encoder with the given channel count:
/// a stereo encoder receives each mono sample duplicated into both
/// channels; a mono encoder receives the buffer unchanged.
pub fn prepare_for_encode(pcm: &[i16], channels: u16) -> (r: Vec<i16>)
    requires
        pcm@.len() * 2 <= usize::MAX,
    ensures
        channels == 2 ==> r@ == duplicated(pcm@),
        channels != 2 ==> r@ == pcm@,
{
    if channels == 2 {
        duplicate_to_stereo(pcm)
    } else {
        let mut out: Vec<i16> = Vec::new();
        let mut i: usize = 0;
        while i < pcm.len()
            invariant
                i <= pcm@.len(),
                out@.len() == i,
                forall|j: int| 0 <= j < i ==> out@[j] == pcm@[j],
            decreases pcm@.len() - i,
        {
            out.push(pcm[i]);
            i = i + 1;
        }
        proof {
            assert(out@ =~= pcm@);
        }
        out
    }
}

} // verus!
