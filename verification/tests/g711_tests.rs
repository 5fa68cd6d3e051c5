use voicegate::media::codecs::g711::pcma_decode;
use voicegate::media::codecs::g711::pcma_decode_sample;
use voicegate::media::codecs::g711::pcma_encode;
use voicegate::media::codecs::g711::pcma_encode_sample;
use voicegate::media::codecs::g711::pcmu_decode;
use voicegate::media::codecs::g711::pcmu_decode_sample;
use voicegate::media::codecs::g711::pcmu_encode;
use voicegate::media::codecs::g711::pcmu_encode_sample;

#[test]
fn mu_law_silence_is_ff() {
    assert_eq!(pcmu_encode_sample(0), 0xFF);
    assert_eq!(pcmu_decode_sample(0xFF), 0);
}

#[test]
fn mu_law_full_scale() {
    // positive full scale companded to 0x80, expanding to 32124
    assert_eq!(pcmu_encode_sample(32767), 0x80);
    assert_eq!(pcmu_decode_sample(0x80), 32124);
    assert_eq!(pcmu_encode_sample(-32768), 0x00);
    assert_eq!(pcmu_decode_sample(0x00), -32124);
}

#[test]
fn mu_law_codewords_are_stable() {
    // every codeword but negative zero survives expand-then-compand
    for b in 0u16..=255 {
        let b = b as u8;
        let expanded = pcmu_decode_sample(b);
        let again = pcmu_encode_sample(expanded);
        if b == 0x7F {
            // negative zero expands to 0 and re-compands positive
            assert_eq!(again, 0xFF);
        } else {
            assert_eq!(again, b, "codeword {:#04x}", b);
        }
    }
}

#[test]
fn mu_law_quantization_error_is_bounded_by_segment_step() {
    let mut s: i32 = -32768;
    while s <= 32767 {
        let x = s as i16;
        let y = pcmu_decode_sample(pcmu_encode_sample(x)) as i32;
        // the widest segment quantizes in steps of 1024
        assert!((y - s).abs() <= 1024, "sample {}: got {}", s, y);
        s += 37;
    }
}

#[test]
fn a_law_silence_is_d5() {
    assert_eq!(pcma_encode_sample(0), 0xD5);
    assert_eq!(pcma_decode_sample(0xD5), 8);
}

#[test]
fn a_law_full_scale() {
    assert_eq!(pcma_decode_sample(pcma_encode_sample(32767)), 32256);
    assert_eq!(pcma_decode_sample(pcma_encode_sample(-32768)), -32256);
}

#[test]
fn a_law_codewords_are_stable() {
    for b in 0u16..=255 {
        let b = b as u8;
        let expanded = pcma_decode_sample(b);
        assert_eq!(pcma_encode_sample(expanded), b, "codeword {:#04x}", b);
    }
}

#[test]
fn a_law_quantization_error_is_bounded_by_segment_step() {
    let mut s: i32 = -32768;
    while s <= 32767 {
        let x = s as i16;
        let y = pcma_decode_sample(pcma_encode_sample(x)) as i32;
        assert!((y - s).abs() <= 1024, "sample {}: got {}", s, y);
        s += 41;
    }
}

#[test]
fn g711_buffers_compand_samplewise() {
    let pcm: Vec<i16> = vec![0, 1000, -1000, 32767, -32768];
    let mu = pcmu_encode(&pcm);
    assert_eq!(mu.len(), pcm.len());
    assert_eq!(mu[0], 0xFF);
    assert_eq!(pcmu_decode(&mu).len(), pcm.len());
    let a = pcma_encode(&pcm);
    assert_eq!(a[0], 0xD5);
    assert_eq!(pcma_decode(&a).len(), pcm.len());
}
