use voicegate::media::codecs::l16::l16_decode;
use voicegate::media::codecs::l16::l16_encode;
use voicegate::media::rtp::dtmf_digit;
use voicegate::media::rtp::gap_action;
use voicegate::media::rtp::GapAction;
use voicegate::media::rtp::parse_dtmf;
use voicegate::media::rtp::parse_rtp_header;
use voicegate::media::rtp::Packetizer;

#[test]
fn l16_round_trips_losslessly() {
    let pcm: Vec<i16> = vec![0, 1, -1, 32767, -32768, 12345, -12345];
    let wire = l16_encode(&pcm);
    assert_eq!(wire.len(), 2 * pcm.len());
    assert_eq!(l16_decode(&wire), pcm);
}

#[test]
fn l16_wire_is_big_endian() {
    // 0x0102 and -2 (0xFFFE)
    assert_eq!(l16_encode(&[0x0102, -2]), vec![0x01, 0x02, 0xFF, 0xFE]);
    assert_eq!(l16_decode(&[0x01, 0x02, 0xFF, 0xFE]), vec![0x0102, -2]);
    // a trailing odd byte is ignored
    assert_eq!(l16_decode(&[0x00, 0x05, 0x09]), vec![5]);
}

#[test]
fn rtp_header_parses_version_two() {
    let mut packet = vec![
        0x80, // V=2, no padding, no extension, no CSRC
        0xE5, // marker set, payload type 101
        0x12, 0x34, // sequence
        0x00, 0x01, 0x02, 0x03, // timestamp
        0xDE, 0xAD, 0xBE, 0xEF, // SSRC
    ];
    packet.extend_from_slice(&[0xAA, 0xBB]); // payload
    let (h, offset) = parse_rtp_header(&packet).unwrap();
    assert_eq!(h.version, 2);
    assert!(!h.padding);
    assert!(!h.extension);
    assert_eq!(h.csrc_count, 0);
    assert!(h.marker);
    assert_eq!(h.payload_type, 101);
    assert_eq!(h.sequence_number, 0x1234);
    assert_eq!(h.timestamp, 0x00010203);
    assert_eq!(h.ssrc, 0xDEADBEEF);
    assert_eq!(offset, 12);
    assert_eq!(&packet[offset..], &[0xAA, 0xBB]);
}

#[test]
fn rtp_header_rejects_bad_version_and_short_packets() {
    // version 1
    let v1 = vec![0x40, 0, 0, 0, 0, 0, 0, 0, 0, 0, 0, 0];
    assert!(parse_rtp_header(&v1).is_none());
    // too short for the fixed header
    assert!(parse_rtp_header(&[0x80, 0, 0]).is_none());
    // claims two CSRCs but carries none
    let short_csrc = vec![0x82, 0, 0, 0, 0, 0, 0, 0, 0, 0, 0, 0];
    assert!(parse_rtp_header(&short_csrc).is_none());
}

#[test]
fn rtp_header_skips_csrc_list() {
    let mut packet = vec![
        0x81, // V=2, one CSRC
        96, 0, 1, 0, 0, 0, 0, 0, 0, 0, 1,
    ];
    packet.extend_from_slice(&[9, 9, 9, 9]); // the CSRC
    packet.push(0x55); // payload
    let (h, offset) = parse_rtp_header(&packet).unwrap();
    assert_eq!(h.csrc_count, 1);
    assert_eq!(offset, 16);
    assert_eq!(packet[offset], 0x55);
}

#[test]
fn dtmf_payload_parses() {
    // event 11 (#), end bit set, volume 10, duration 1600
    let d = parse_dtmf(&[11, 0x8A, 0x06, 0x40]).unwrap();
    assert_eq!(d.event, 11);
    assert!(d.end_of_event);
    assert_eq!(d.volume, 10);
    assert_eq!(d.duration, 1600);
    assert!(parse_dtmf(&[1, 2, 3]).is_none());
}

#[test]
fn dtmf_digits_map_per_event_code() {
    assert_eq!(dtmf_digit(0), Some('0'));
    assert_eq!(dtmf_digit(9), Some('9'));
    assert_eq!(dtmf_digit(10), Some('*'));
    assert_eq!(dtmf_digit(11), Some('#'));
    assert_eq!(dtmf_digit(12), Some('A'));
    assert_eq!(dtmf_digit(15), Some('D'));
    assert_eq!(dtmf_digit(16), None);
}

#[test]
fn packetizer_cuts_ptime_packets_with_increasing_numbers() {
    // 20 ms at 8 kHz
    let mut p = Packetizer::new(0, 0x1234, 160);
    assert!(p.next_packet().is_none());
    let pcm: Vec<i16> = (0..400).map(|i| i as i16).collect();
    p.accumulate(&pcm);
    let first = p.next_packet().unwrap();
    assert_eq!(first.sequence_number, 0);
    assert_eq!(first.timestamp, 0);
    assert_eq!(first.samples.len(), 160);
    assert_eq!(first.samples[0], 0);
    let second = p.next_packet().unwrap();
    assert_eq!(second.sequence_number, 1);
    assert_eq!(second.timestamp, 160);
    assert_eq!(second.samples[0], 160);
    // 80 samples remain: less than one packet time
    assert!(p.next_packet().is_none());
    assert!(!p.ready());
    assert_eq!(first.ssrc, 0x1234);
    assert_eq!(second.ssrc, 0x1234);
}

#[test]
fn gap_handling_conceals_small_gaps_only() {
    assert_eq!(gap_action(None, 500), GapAction::Contiguous);
    assert_eq!(gap_action(Some(99), 100), GapAction::Contiguous);
    assert_eq!(gap_action(Some(99), 101), GapAction::Conceal { missing: 1 });
    assert_eq!(gap_action(Some(99), 116), GapAction::Conceal { missing: 16 });
    assert_eq!(gap_action(Some(99), 117), GapAction::Resync);
    // a wrap is a resync, not a gap
    assert_eq!(gap_action(Some(u16::MAX), 0), GapAction::Resync);
}
