use voicegate::media::codecs::adapt_channels;
use voicegate::media::codecs::avg_pair;
use voicegate::media::codecs::codec_for_payload_type;
use voicegate::media::codecs::is_dynamic_payload_type;
use voicegate::media::codecs::CodecKind;
use voicegate::media::codecs::downmix_stereo;
use voicegate::media::codecs::duplicate_to_stereo;
use voicegate::media::codecs::opus::extract_decoded;
use voicegate::media::codecs::opus::normalize_opus_channels;
use voicegate::media::codecs::opus::normalize_opus_rate;
use voicegate::media::codecs::opus::prepare_for_encode;
use voicegate::media::codecs::opus::validate_opus_params;
use voicegate::event::EventErrorKind;
use voicegate::media::codecs::opus::OPUS_MAX_SAMPLES;
use voicegate::media::align_for_mix;
use voicegate::media::mix_pcm;
use voicegate::media::MixDecision;

#[test]
fn opus_rate_normalization() {
    assert_eq!(normalize_opus_rate(8000), 8000);
    assert_eq!(normalize_opus_rate(12000), 12000);
    assert_eq!(normalize_opus_rate(16000), 16000);
    assert_eq!(normalize_opus_rate(24000), 24000);
    assert_eq!(normalize_opus_rate(48000), 48000);
    assert_eq!(normalize_opus_rate(44100), 48000);
    assert_eq!(normalize_opus_rate(0), 48000);
}

#[test]
fn opus_channel_normalization() {
    assert_eq!(normalize_opus_channels(1), 1);
    assert_eq!(normalize_opus_channels(2), 2);
    assert_eq!(normalize_opus_channels(0), 2);
    assert_eq!(normalize_opus_channels(6), 2);
}

#[test]
fn opus_scratch_buffer_holds_max_frame() {
    // 120 ms at 48 kHz, two channels
    assert_eq!(OPUS_MAX_SAMPLES, 11520);
}

#[test]
fn averaging_rounds_toward_zero() {
    assert_eq!(avg_pair(1, 2), 1);
    assert_eq!(avg_pair(-1, -2), -1);
    assert_eq!(avg_pair(3, 4), 3);
    assert_eq!(avg_pair(-3, -4), -3);
    assert_eq!(avg_pair(i16::MAX, i16::MAX), i16::MAX);
    assert_eq!(avg_pair(i16::MIN, i16::MIN), i16::MIN);
    assert_eq!(avg_pair(i16::MAX, i16::MIN), 0);
}

#[test]
fn downmix_averages_pairs() {
    let stereo: Vec<i16> = vec![100, 200, -100, -200, 7, 8];
    assert_eq!(downmix_stereo(&stereo), vec![150, -150, 7]);
}

#[test]
fn downmix_drops_trailing_unpaired_sample() {
    let stereo: Vec<i16> = vec![10, 20, 30];
    assert_eq!(downmix_stereo(&stereo), vec![15]);
}

#[test]
fn duplicate_interleaves_both_channels() {
    let mono: Vec<i16> = vec![5, -6, 7];
    assert_eq!(duplicate_to_stereo(&mono), vec![5, 5, -6, -6, 7, 7]);
}

#[test]
fn extract_decoded_mono_takes_reported_prefix() {
    let buf: Vec<i16> = vec![1, 2, 3, 4, 5, 0, 0, 0];
    assert_eq!(extract_decoded(&buf, 5, 1), vec![1, 2, 3, 4, 5]);
}

#[test]
fn extract_decoded_stereo_downmixes() {
    let buf: Vec<i16> = vec![100, 200, 50, 70, 0, 0];
    assert_eq!(extract_decoded(&buf, 2, 2), vec![150, 60]);
}

#[test]
fn prepare_for_encode_duplicates_for_stereo() {
    let mono: Vec<i16> = vec![1, 2];
    assert_eq!(prepare_for_encode(&mono, 2), vec![1, 1, 2, 2]);
    assert_eq!(prepare_for_encode(&mono, 1), vec![1, 2]);
}

// Mono pushed through the session's default transform into a stereo
// sink comes out interleaved with identical channel samples.
#[test]
fn mono_to_stereo_mismatch_duplicates() {
    let mono: Vec<i16> = vec![1000, -2000, 3000];
    let out = adapt_channels(&mono, 1, 2);
    assert_eq!(out.len(), 6);
    for (i, &s) in mono.iter().enumerate() {
        assert_eq!(out[2 * i], s);
        assert_eq!(out[2 * i + 1], s);
    }
    // matching layouts pass through unchanged
    assert_eq!(adapt_channels(&mono, 1, 1), mono);
    // stereo into mono averages
    assert_eq!(adapt_channels(&[10, 20, 30, 50], 2, 1), vec![15, 40]);
}

#[test]
fn mixing_sums_and_clips() {
    assert_eq!(mix_pcm(&[100, -100], &[50, -50]), vec![150, -150]);
    assert_eq!(mix_pcm(&[30000, -30000], &[30000, -30000]), vec![32767, -32768]);
    // the shorter buffer is treated as silence past its end
    assert_eq!(mix_pcm(&[1, 2, 3], &[10]), vec![11, 2, 3]);
    assert_eq!(mix_pcm(&[], &[4, 5]), vec![4, 5]);
}

#[test]
fn registry_maps_static_payload_types() {
    assert_eq!(codec_for_payload_type(0), Some(CodecKind::Pcmu));
    assert_eq!(codec_for_payload_type(8), Some(CodecKind::Pcma));
    assert_eq!(codec_for_payload_type(10), Some(CodecKind::L16));
    assert_eq!(codec_for_payload_type(11), Some(CodecKind::L16));
    assert_eq!(codec_for_payload_type(96), None);
    assert!(is_dynamic_payload_type(96));
    assert!(is_dynamic_payload_type(127));
    assert!(!is_dynamic_payload_type(95));
    assert!(!is_dynamic_payload_type(128));
}

#[test]
fn mix_alignment_tolerates_one_frame_duration() {
    assert_eq!(align_for_mix(100, 110, 20, 0), MixDecision::MixTogether);
    assert_eq!(align_for_mix(110, 100, 20, 39), MixDecision::MixTogether);
    assert_eq!(align_for_mix(100, 121, 20, 0), MixDecision::HoldEarlier);
    assert_eq!(align_for_mix(100, 121, 20, 39), MixDecision::HoldEarlier);
    assert_eq!(align_for_mix(100, 121, 20, 40), MixDecision::EmitSoloEarlier);
}

#[test]
fn opus_construction_parameters_are_validated() {
    assert_eq!(validate_opus_params(48000, 2), Ok(()));
    assert_eq!(validate_opus_params(8000, 1), Ok(()));
    assert_eq!(validate_opus_params(44100, 1), Err(EventErrorKind::CodecInit));
    assert_eq!(validate_opus_params(48000, 3), Err(EventErrorKind::CodecInit));
    assert_eq!(validate_opus_params(0, 0), Err(EventErrorKind::CodecInit));
}
