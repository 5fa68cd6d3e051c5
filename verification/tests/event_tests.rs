use voicegate::event::EventBus;
use voicegate::event::EventErrorKind;
use voicegate::event::SessionEvent;
use voicegate::event::SUBSCRIBER_QUEUE_BOUND;

// Two events published in order are observed in that order by every
// subscriber.
#[test]
fn events_are_fifo_per_subscriber() {
    let mut bus = EventBus::new();
    let a = bus.subscribe();
    let b = bus.subscribe();
    bus.publish(SessionEvent::CallRinging);
    bus.publish(SessionEvent::CallEstablished);
    bus.publish(SessionEvent::BargeIn);
    for id in [a, b] {
        assert!(matches!(bus.poll(id), Some(SessionEvent::CallRinging)));
        assert!(matches!(bus.poll(id), Some(SessionEvent::CallEstablished)));
        assert!(matches!(bus.poll(id), Some(SessionEvent::BargeIn)));
        assert!(bus.poll(id).is_none());
    }
}

#[test]
fn late_subscriber_sees_no_history() {
    let mut bus = EventBus::new();
    bus.publish(SessionEvent::CallRinging);
    let late = bus.subscribe();
    assert!(bus.poll(late).is_none());
    bus.publish(SessionEvent::CallEstablished);
    assert!(matches!(bus.poll(late), Some(SessionEvent::CallEstablished)));
}

// A subscriber that falls behind the bound loses the oldest events
// and is told so once per lag episode.
#[test]
fn lagging_subscriber_drops_oldest_and_learns_once() {
    let mut bus = EventBus::new();
    let s = bus.subscribe();
    for d in 0..(SUBSCRIBER_QUEUE_BOUND + 3) {
        bus.publish(SessionEvent::DtmfReceived { digit: (d % 10) as u8 });
    }
    assert_eq!(bus.pending_count(s), SUBSCRIBER_QUEUE_BOUND);
    // the lag episode is announced first, exactly once
    match bus.poll(s) {
        Some(SessionEvent::Error { kind, .. }) => assert_eq!(kind, EventErrorKind::SubscriberLag),
        other => panic!("expected a subscriber-lag error, got {:?}", other),
    }
    // then observation resumes at the oldest retained event: digits
    // 0, 1, 2 were dropped
    match bus.poll(s) {
        Some(SessionEvent::DtmfReceived { digit }) => assert_eq!(digit, 3 % 10),
        other => panic!("expected a digit event, got {:?}", other),
    }
}

#[test]
fn carried_event_text_survives_broadcast() {
    let mut bus = EventBus::new();
    let s = bus.subscribe();
    bus.publish(SessionEvent::TranscriptFinal {
        text: "hello there".to_string(),
        track: "mic".to_string(),
    });
    match bus.poll(s) {
        Some(SessionEvent::TranscriptFinal { text, track }) => {
            assert_eq!(text, "hello there");
            assert_eq!(track, "mic");
        },
        other => panic!("expected the final transcript, got {:?}", other),
    }
}
