use voicegate::track::PushOutcome;
use voicegate::track::Track;
use voicegate::track::TrackDirection;
use voicegate::track::TrackError;
use voicegate::AudioFrame;
use voicegate::Samples;

fn pcm_frame(id: &str, ts: u64, rate: u32, samples: Vec<i16>) -> AudioFrame {
    AudioFrame {
        track_id: id.to_string(),
        samples: Samples::PCM { samples },
        timestamp: ts,
        sample_rate: rate,
    }
}

#[test]
fn payload_type_only_for_rtp() {
    let rtp = Samples::RTP { sequence_number: 7, payload_type: 111, payload: vec![1, 2, 3] };
    assert_eq!(rtp.payload_type(), Some(111));
    let pcm = Samples::PCM { samples: vec![0] };
    assert_eq!(pcm.payload_type(), None);
    assert_eq!(Samples::Empty.payload_type(), None);
}

#[test]
fn timestamp_is_wall_clock_millis() {
    let t1 = voicegate::get_timestamp();
    let t2 = voicegate::get_timestamp();
    assert!(t2 >= t1);
    // after 2001 and readable as epoch milliseconds
    assert!(t1 > 1_000_000_000_000);
}

// Emitted timestamps are strictly increasing: a frame that does not
// advance the clock is rejected and the track is unchanged.
#[test]
fn track_rejects_clock_regression() {
    let mut t = Track::new("mic".to_string(), TrackDirection::Source, 16000, 1, 10);
    assert_eq!(t.push(pcm_frame("mic", 0, 16000, vec![1])), Ok(PushOutcome::Queued));
    assert_eq!(t.push(pcm_frame("mic", 20, 16000, vec![2])), Ok(PushOutcome::Queued));
    assert_eq!(
        t.push(pcm_frame("mic", 20, 16000, vec![3])),
        Err(TrackError::ClockRegression)
    );
    assert_eq!(
        t.push(pcm_frame("mic", 5, 16000, vec![3])),
        Err(TrackError::ClockRegression)
    );
    assert_eq!(t.len(), 2);
    assert_eq!(t.push(pcm_frame("mic", 21, 16000, vec![4])), Ok(PushOutcome::Queued));
}

#[test]
fn track_rejects_sample_rate_mismatch() {
    let mut t = Track::new("mic".to_string(), TrackDirection::Source, 16000, 1, 10);
    assert_eq!(
        t.push(pcm_frame("mic", 0, 8000, vec![1])),
        Err(TrackError::SampleRateMismatch)
    );
    assert_eq!(t.len(), 0);
}

#[test]
fn track_pull_is_fifo() {
    let mut t = Track::new("spk".to_string(), TrackDirection::Sink, 48000, 2, 10);
    for ts in [0u64, 20, 40] {
        t.push(pcm_frame("spk", ts, 48000, vec![ts as i16])).unwrap();
    }
    assert_eq!(t.pull().unwrap().timestamp, 0);
    assert_eq!(t.pull().unwrap().timestamp, 20);
    assert_eq!(t.pull().unwrap().timestamp, 40);
    assert!(t.pull().is_none());
}

#[test]
fn track_backpressure_drops_oldest() {
    let mut t = Track::new("spk".to_string(), TrackDirection::Sink, 8000, 1, 2);
    assert_eq!(t.push(pcm_frame("spk", 0, 8000, vec![0])), Ok(PushOutcome::Queued));
    assert_eq!(t.push(pcm_frame("spk", 20, 8000, vec![1])), Ok(PushOutcome::Queued));
    assert_eq!(
        t.push(pcm_frame("spk", 40, 8000, vec![2])),
        Ok(PushOutcome::DroppedOldest)
    );
    assert_eq!(t.len(), 2);
    // the oldest frame went; freshness is preserved for playback
    assert_eq!(t.pull().unwrap().timestamp, 20);
    assert_eq!(t.pull().unwrap().timestamp, 40);
}

#[test]
fn track_close_marks_drained() {
    let mut t = Track::new("mic".to_string(), TrackDirection::Source, 16000, 1, 4);
    t.push(pcm_frame("mic", 0, 16000, vec![1])).unwrap();
    assert!(!t.is_closed());
    t.close();
    assert!(t.is_closed());
    // the queue still empties
    assert_eq!(t.pull().unwrap().timestamp, 0);
    assert!(t.pull().is_none());
}

#[test]
fn empty_samples_advance_clock() {
    let mut t = Track::new("mic".to_string(), TrackDirection::Source, 16000, 1, 4);
    t.push(pcm_frame("mic", 0, 16000, vec![1])).unwrap();
    // a silence placeholder advances time without audio
    let silent = AudioFrame {
        track_id: "mic".to_string(),
        samples: Samples::Empty,
        timestamp: 20,
        sample_rate: 16000,
    };
    assert_eq!(t.push(silent), Ok(PushOutcome::Queued));
    assert_eq!(
        t.push(pcm_frame("mic", 20, 16000, vec![2])),
        Err(TrackError::ClockRegression)
    );
    assert_eq!(t.push(pcm_frame("mic", 40, 16000, vec![2])), Ok(PushOutcome::Queued));
}

// Each subscriber sees a copy of every frame accepted after it
// subscribed; late subscribers do not see history, and the primary
// queue is untouched by subscription.
#[test]
fn track_subscribers_see_every_frame() {
    let mut t = Track::new("mic".to_string(), TrackDirection::Source, 16000, 1, 10);
    t.push(pcm_frame("mic", 0, 16000, vec![1])).unwrap();
    let sub = t.subscribe();
    assert!(t.pull_tap(sub).is_none());
    t.push(pcm_frame("mic", 20, 16000, vec![2, 3])).unwrap();
    t.push(pcm_frame("mic", 40, 16000, vec![4])).unwrap();
    let first = t.pull_tap(sub).unwrap();
    assert_eq!(first.timestamp, 20);
    match first.samples {
        Samples::PCM { samples } => assert_eq!(samples, vec![2, 3]),
        other => panic!("expected PCM, got {:?}", other),
    }
    assert_eq!(t.pull_tap(sub).unwrap().timestamp, 40);
    assert!(t.pull_tap(sub).is_none());
    // the primary consumer still holds all three frames
    assert_eq!(t.len(), 3);
    assert_eq!(t.pull().unwrap().timestamp, 0);
}

#[test]
fn track_subscriber_queue_drops_oldest_at_bound() {
    let mut t = Track::new("mic".to_string(), TrackDirection::Source, 16000, 1, 2);
    let sub = t.subscribe();
    t.push(pcm_frame("mic", 0, 16000, vec![0])).unwrap();
    t.push(pcm_frame("mic", 20, 16000, vec![1])).unwrap();
    t.push(pcm_frame("mic", 40, 16000, vec![2])).unwrap();
    // bound 2: the oldest pending copy went
    assert_eq!(t.pull_tap(sub).unwrap().timestamp, 20);
    assert_eq!(t.pull_tap(sub).unwrap().timestamp, 40);
    assert!(t.pull_tap(sub).is_none());
}
