use voicegate::event::SessionEvent;
use voicegate::session::MediaSession;
use voicegate::session::SessionError;
use voicegate::track::PushOutcome;
use voicegate::track::Track;
use voicegate::track::TrackDirection;
use voicegate::track::TrackError;
use voicegate::AudioFrame;
use voicegate::Samples;

fn mic(id: &str) -> Track {
    Track::new(id.to_string(), TrackDirection::Source, 16000, 1, 100)
}

#[test]
fn session_tracks_have_unique_ids() {
    let mut s = MediaSession::new("call-1".to_string(), 1_700_000_000_000);
    assert_eq!(s.add_track(mic("asr")), Ok(()));
    assert_eq!(s.add_track(mic("tts")), Ok(()));
    assert_eq!(s.add_track(mic("asr")), Err(SessionError::DuplicateTrack));
    assert_eq!(s.track_count(), 2);
}

#[test]
fn session_edges_join_existing_tracks() {
    let mut s = MediaSession::new("call-2".to_string(), 0);
    s.add_track(mic("asr")).unwrap();
    s.add_track(mic("tts")).unwrap();
    let asr = "asr".to_string();
    let tts = "tts".to_string();
    let missing = "ghost".to_string();
    assert_eq!(s.connect(&asr, &missing), Err(SessionError::UnknownTrack));
    assert_eq!(s.connect(&asr, &tts), Ok(()));
    assert_eq!(s.connect(&asr, &tts), Err(SessionError::DuplicateEdge));
    assert_eq!(s.edge_count(), 1);
    assert_eq!(s.disconnect(&asr, &tts), Ok(()));
    assert_eq!(s.disconnect(&asr, &tts), Err(SessionError::UnknownEdge));
    assert_eq!(s.edge_count(), 0);
}

#[test]
fn session_fans_events_out_in_order() {
    let mut s = MediaSession::new("call-3".to_string(), 0);
    let sub = s.subscribe_events();
    s.publish_event(SessionEvent::CallRinging);
    s.publish_event(SessionEvent::CallEstablished);
    assert!(matches!(s.poll_events(sub), Some(SessionEvent::CallRinging)));
    assert!(matches!(s.poll_events(sub), Some(SessionEvent::CallEstablished)));
    assert!(s.poll_events(sub).is_none());
}

#[test]
fn shutdown_releases_tracks_and_announces_once() {
    let mut s = MediaSession::new("call-4".to_string(), 0);
    s.add_track(mic("asr")).unwrap();
    s.add_track(mic("tts")).unwrap();
    let asr = "asr".to_string();
    let tts = "tts".to_string();
    s.connect(&asr, &tts).unwrap();
    let sub = s.subscribe_events();
    s.shutdown("normal".to_string());
    assert_eq!(s.track_count(), 0);
    assert_eq!(s.edge_count(), 0);
    match s.poll_events(sub) {
        Some(SessionEvent::CallEnded { reason }) => assert_eq!(reason, "normal"),
        other => panic!("expected the end-of-call event, got {:?}", other),
    }
    assert!(s.poll_events(sub).is_none());
}

// A 16 kHz mono frame pushed through the session's default transform
// into a 16 kHz stereo sink comes out duplicated into interleaved
// stereo with identical channel samples.
#[test]
fn forwarding_adapts_mono_into_stereo_sink() {
    let mut s = MediaSession::new("call-5".to_string(), 0);
    s.add_track(Track::new("mic".to_string(), TrackDirection::Source, 16000, 1, 100)).unwrap();
    s.add_track(Track::new("spk".to_string(), TrackDirection::Sink, 16000, 2, 100)).unwrap();
    let frame = AudioFrame {
        track_id: "mic".to_string(),
        samples: Samples::PCM { samples: vec![7, -8, 9] },
        timestamp: 20,
        sample_rate: 16000,
    };
    assert_eq!(s.push_frame(0, frame), Ok(PushOutcome::Queued));
    assert_eq!(s.forward_edge(0, 1), Some(Ok(PushOutcome::Queued)));
    // the source is drained
    assert_eq!(s.forward_edge(0, 1), None);
    let out = s.pull_frame(1).unwrap();
    assert_eq!(out.timestamp, 20);
    assert_eq!(out.sample_rate, 16000);
    match out.samples {
        Samples::PCM { samples } => assert_eq!(samples, vec![7, 7, -8, -8, 9, 9]),
        other => panic!("expected PCM, got {:?}", other),
    }
}

// A frame whose rate disagrees with the sink is rejected by the sink
// when forwarded: the transform adapts channels, never rates.
#[test]
fn forwarding_surfaces_sink_rate_mismatch() {
    let mut s = MediaSession::new("call-6".to_string(), 0);
    s.add_track(Track::new("mic".to_string(), TrackDirection::Source, 16000, 1, 100)).unwrap();
    s.add_track(Track::new("spk".to_string(), TrackDirection::Sink, 48000, 1, 100)).unwrap();
    let frame = AudioFrame {
        track_id: "mic".to_string(),
        samples: Samples::PCM { samples: vec![1] },
        timestamp: 20,
        sample_rate: 16000,
    };
    s.push_frame(0, frame).unwrap();
    assert_eq!(s.forward_edge(0, 1), Some(Err(TrackError::SampleRateMismatch)));
}

// A backpressure drop inside the session is announced on its bus as
// a FrameDropped event for the overflowing track.
#[test]
fn backpressure_drop_is_announced_on_the_bus() {
    let mut s = MediaSession::new("call-7".to_string(), 0);
    s.add_track(Track::new("spk".to_string(), TrackDirection::Sink, 8000, 1, 1)).unwrap();
    let sub = s.subscribe_events();
    let mk = |ts: u64| AudioFrame {
        track_id: "spk".to_string(),
        samples: Samples::PCM { samples: vec![1] },
        timestamp: ts,
        sample_rate: 8000,
    };
    assert_eq!(s.push_frame(0, mk(0)), Ok(PushOutcome::Queued));
    assert!(s.poll_events(sub).is_none());
    assert_eq!(s.push_frame(0, mk(20)), Ok(PushOutcome::DroppedOldest));
    match s.poll_events(sub) {
        Some(SessionEvent::FrameDropped { track, count }) => {
            assert_eq!(track, "spk");
            assert_eq!(count, 1);
        },
        other => panic!("expected the drop announcement, got {:?}", other),
    }
}

// Removing a track mid-call drops every edge touching it and leaves
// the rest of the graph intact.
#[test]
fn remove_track_cascades_to_its_edges() {
    let mut s = MediaSession::new("call-8".to_string(), 0);
    s.add_track(mic("asr")).unwrap();
    s.add_track(mic("mix")).unwrap();
    s.add_track(mic("tts")).unwrap();
    let asr = "asr".to_string();
    let mix = "mix".to_string();
    let tts = "tts".to_string();
    s.connect(&asr, &mix).unwrap();
    s.connect(&mix, &tts).unwrap();
    s.connect(&asr, &tts).unwrap();
    assert_eq!(s.remove_track(&mix), Ok(()));
    assert_eq!(s.track_count(), 2);
    assert_eq!(s.edge_count(), 1);
    // the edge not touching the removed track survives
    assert_eq!(s.disconnect(&asr, &tts), Ok(()));
    assert_eq!(s.remove_track(&mix), Err(SessionError::UnknownTrack));
}
