use voicegate::media::rtp::JitterBuffer;
use voicegate::media::rtp::JitterPush;
use voicegate::media::rtp::DEFAULT_JITTER_WINDOW_MS;
use voicegate::media::rtp::DEFAULT_PTIME_MS;
use voicegate::AudioFrame;
use voicegate::Samples;

fn rtp_frame(seq: u16, ts: u64) -> AudioFrame {
    AudioFrame {
        track_id: "rtp-in".to_string(),
        samples: Samples::RTP { sequence_number: seq, payload_type: 111, payload: vec![0xAA] },
        timestamp: ts,
        sample_rate: 8000,
    }
}

// Packets delivered out of order within the window come out in
// producer order with zero drops.
#[test]
fn jitter_reorder_within_window() {
    let mut jb = JitterBuffer::new(DEFAULT_JITTER_WINDOW_MS, DEFAULT_PTIME_MS);
    let delivery: [(u16, u64); 4] = [(100, 0), (102, 20), (101, 40), (103, 60)];
    for (seq, ts) in delivery {
        assert_eq!(jb.push(seq, rtp_frame(seq, ts)), JitterPush::Buffered);
    }
    assert_eq!(jb.overflow_count(), 0);
    let mut order: Vec<u16> = Vec::new();
    while let Some((seq, _frame)) = jb.pop() {
        order.push(seq);
    }
    assert_eq!(order, vec![100, 101, 102, 103]);
}

// A packet that arrives a window too late is dropped and counted.
#[test]
fn jitter_overflow_drops_late_packet() {
    let mut jb = JitterBuffer::new(DEFAULT_JITTER_WINDOW_MS, DEFAULT_PTIME_MS);
    for seq in [100u16, 101, 102] {
        assert_eq!(jb.push(seq, rtp_frame(seq, (seq as u64 - 100) * 20)), JitterPush::Buffered);
    }
    // 200 ms later than its slot: five packets behind the newest
    assert_eq!(jb.push(97, rtp_frame(97, 0)), JitterPush::DroppedLate);
    assert_eq!(jb.overflow_count(), 1);
    let mut order: Vec<u16> = Vec::new();
    while let Some((seq, _)) = jb.pop() {
        order.push(seq);
    }
    assert_eq!(order, vec![100, 101, 102]);
}

#[test]
fn jitter_drops_duplicates_silently() {
    let mut jb = JitterBuffer::new(DEFAULT_JITTER_WINDOW_MS, DEFAULT_PTIME_MS);
    assert_eq!(jb.push(10, rtp_frame(10, 0)), JitterPush::Buffered);
    assert_eq!(jb.push(10, rtp_frame(10, 0)), JitterPush::DroppedDuplicate);
    assert_eq!(jb.overflow_count(), 0);
    assert_eq!(jb.len(), 1);
}

#[test]
fn jitter_rejects_seq_behind_released_slot() {
    let mut jb = JitterBuffer::new(DEFAULT_JITTER_WINDOW_MS, DEFAULT_PTIME_MS);
    jb.push(5, rtp_frame(5, 0));
    let (seq, _) = jb.pop().unwrap();
    assert_eq!(seq, 5);
    // its slot was already played out
    assert_eq!(jb.push(4, rtp_frame(4, 0)), JitterPush::DroppedLate);
    assert_eq!(jb.push(5, rtp_frame(5, 0)), JitterPush::DroppedLate);
    assert_eq!(jb.overflow_count(), 2);
    assert_eq!(jb.push(6, rtp_frame(6, 20)), JitterPush::Buffered);
}

// The reorder window follows an eighth-weight moving average of the
// observed inter-arrival deviation, clamped between 20 and 200 ms.
#[test]
fn jitter_window_adapts_to_interarrival_variance() {
    let mut jb = JitterBuffer::new(DEFAULT_JITTER_WINDOW_MS, DEFAULT_PTIME_MS);
    assert_eq!(jb.window_ms(), 60);
    assert_eq!(jb.jitter_estimate(), 60);
    jb.observe_interarrival(200);
    // 60 + (200 - 60) / 8
    assert_eq!(jb.jitter_estimate(), 77);
    assert_eq!(jb.window_ms(), 77);
    jb.observe_interarrival(0);
    // 77 - 77 / 8
    assert_eq!(jb.jitter_estimate(), 68);
    assert_eq!(jb.window_ms(), 68);
    for _ in 0..40 {
        jb.observe_interarrival(800);
    }
    assert_eq!(jb.window_ms(), 200);
    for _ in 0..80 {
        jb.observe_interarrival(0);
    }
    assert_eq!(jb.window_ms(), 20);
}
