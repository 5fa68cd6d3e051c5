//! Typed broadcast of call events to subscribers.
//!
//! The bus appends every published event to a per-call log;
//! each subscriber is a cursor into that log, so every subscriber
//! observes events in publication order (per-call FIFO). A subscriber
//! more than the queue bound behind has its oldest pending events
//! discarded and is told so by a `SubscriberLag` error event, once
//! per lag episode.

use vstd::prelude::*;

use crate::TrackId;

verus! {

/// Bound on events pending for one subscriber.
pub const SUBSCRIBER_QUEUE_BOUND: usize = 256;

/// The kinds of errors surfaced on the event bus.
#[derive(Debug, Clone, Copy, PartialEq, Eq, Structural)]
pub enum EventErrorKind {
    /// Bad parameters for codec construction; fatal for the session.
    CodecInit,
    /// Corrupt RTP payload; swallowed, empty PCM substituted.
    DecodeFailure,
    /// A producer pushed a non-monotonic timestamp.
    ClockRegression,
    /// A frame's rate disagrees with its track.
    SampleRateMismatch,
    /// A late packet beyond the jitter window.
    JitterOverflow,
    /// An event subscriber fell behind and lost events.
    SubscriberLag,
    /// A speech provider was unreachable.
    ProviderUnavailable,
    /// A speech provider sent no first byte in time.
    ProviderTimeout,
    /// A socket error; fatal for the session.
    RtpTransport,
}

/// A call event, broadcast to every subscriber of the session.
#[derive(Debug)]
pub enum SessionEvent {
    /// The call is ringing.
    CallRinging,
    /// The call was answered.
    CallEstablished,
    /// The call ended for the given reason.
    CallEnded { reason: String },
    /// A partial transcript from the recognizer.
    TranscriptPartial { text: String, track: TrackId },
    /// A final transcript from the recognizer.
    TranscriptFinal { text: String, track: TrackId },
    /// A streamed fragment of the language model's reply.
    LlmDelta { text: String },
    /// The language model's reply is complete.
    LlmComplete,
    /// Voiced audio began on a track.
    SpeechStarted { track: TrackId },
    /// Voiced audio ended on a track.
    SpeechEnded { track: TrackId },
    /// The caller interrupted playback.
    BargeIn,
    /// Frames were dropped from a track's queue.
    FrameDropped { track: TrackId, count: u64 },
    /// A DTMF digit was received.
    DtmfReceived { digit: u8 },
    /// An error surfaced to observers.
    Error { kind: EventErrorKind, detail: String },
}

/// Equality of events up to string contents: two events are the same
/// observation when their variants agree and their text fields read
/// the same.
pub open spec fn event_eq(a: SessionEvent, b: SessionEvent) -> bool {
    match (a, b) {
        (SessionEvent::CallRinging, SessionEvent::CallRinging) => true,
        (SessionEvent::CallEstablished, SessionEvent::CallEstablished) => true,
        (SessionEvent::CallEnded { reason: r1 }, SessionEvent::CallEnded { reason: r2 }) => r1@
            == r2@,
        (
            SessionEvent::TranscriptPartial { text: t1, track: k1 },
            SessionEvent::TranscriptPartial { text: t2, track: k2 },
        ) => t1@ == t2@ && k1@ == k2@,
        (
            SessionEvent::TranscriptFinal { text: t1, track: k1 },
            SessionEvent::TranscriptFinal { text: t2, track: k2 },
        ) => t1@ == t2@ && k1@ == k2@,
        (SessionEvent::LlmDelta { text: t1 }, SessionEvent::LlmDelta { text: t2 }) => t1@ == t2@,
        (SessionEvent::LlmComplete, SessionEvent::LlmComplete) => true,
        (
            SessionEvent::SpeechStarted { track: k1 },
            SessionEvent::SpeechStarted { track: k2 },
        ) => k1@ == k2@,
        (SessionEvent::SpeechEnded { track: k1 }, SessionEvent::SpeechEnded { track: k2 }) => k1@
            == k2@,
        (SessionEvent::BargeIn, SessionEvent::BargeIn) => true,
        (
            SessionEvent::FrameDropped { track: k1, count: c1 },
            SessionEvent::FrameDropped { track: k2, count: c2 },
        ) => k1@ == k2@ && c1 == c2,
        (
            SessionEvent::DtmfReceived { digit: d1 },
            SessionEvent::DtmfReceived { digit: d2 },
        ) => d1 == d2,
        (
            SessionEvent::Error { kind: e1, detail: d1 },
            SessionEvent::Error { kind: e2, detail: d2 },
        ) => e1 == e2 && d1@ == d2@,
        _ => false,
    }
}

/// Copy an event so it can be handed to a subscriber while the bus
/// keeps its log.
pub fn clone_event(e: &SessionEvent) -> (r: SessionEvent)
    ensures
        event_eq(r, *e),
{
    match e {
        SessionEvent::CallRinging => SessionEvent::CallRinging,
        SessionEvent::CallEstablished => SessionEvent::CallEstablished,
        SessionEvent::CallEnded { reason } => SessionEvent::CallEnded { reason: reason.clone() },
        SessionEvent::TranscriptPartial { text, track } => SessionEvent::TranscriptPartial {
            text: text.clone(),
            track: track.clone(),
        },
        SessionEvent::TranscriptFinal { text, track } => SessionEvent::TranscriptFinal {
            text: text.clone(),
            track: track.clone(),
        },
        SessionEvent::LlmDelta { text } => SessionEvent::LlmDelta { text: text.clone() },
        SessionEvent::LlmComplete => SessionEvent::LlmComplete,
        SessionEvent::SpeechStarted { track } => SessionEvent::SpeechStarted {
            track: track.clone(),
        },
        SessionEvent::SpeechEnded { track } => SessionEvent::SpeechEnded { track: track.clone() },
        SessionEvent::BargeIn => SessionEvent::BargeIn,
        SessionEvent::FrameDropped { track, count } => SessionEvent::FrameDropped {
            track: track.clone(),
            count: *count,
        },
        SessionEvent::DtmfReceived { digit } => SessionEvent::DtmfReceived { digit: *digit },
        SessionEvent::Error { kind, detail } => SessionEvent::Error {
            kind: *kind,
            detail: detail.clone(),
        },
    }
}

/// Whether an event announces a subscriber lag episode.
pub open spec fn is_subscriber_lag(e: SessionEvent) -> bool {
    e matches SessionEvent::Error { kind: EventErrorKind::SubscriberLag, .. }
}

/// One subscriber's position in the bus log.
struct Cursor {
    next: usize,
    lagged: bool,
}

/// Per-call broadcast bus: a log of published events and a cursor for
/// each subscriber.
pub struct EventBus {
    log: Vec<SessionEvent>,
    cursors: Vec<Cursor>,
}

impl EventBus {
    /// Every event published on this bus, in publication order.
    pub closed spec fn log(&self) -> Seq<SessionEvent> {
        self.log@
    }

    /// Number of subscribers.
    pub closed spec fn subscriber_count(&self) -> int {
        self.cursors@.len() as int
    }

    /// The log position of a subscriber's next observation.
    pub closed spec fn cursor(&self, i: int) -> int {
        self.cursors@[i].next as int
    }

    /// Whether a subscriber is in an unreported lag episode.
    pub closed spec fn lagged(&self, i: int) -> bool {
        self.cursors@[i].lagged
    }

    /// The events a subscriber has not yet observed, oldest first.
    pub open spec fn pending(&self, i: int) -> Seq<SessionEvent> {
        self.log().subrange(self.cursor(i), self.log().len() as int)
    }

    /// Well-formedness: every cursor lies within the log and no
    /// subscriber is more than the queue bound behind.
    pub closed spec fn wf(&self) -> bool {
        forall|i: int|
            0 <= i < self.cursors@.len() ==> (#[trigger] self.cursors@[i]).next <= self.log@.len()
                && self.log@.len() - self.cursors@[i].next <= SUBSCRIBER_QUEUE_BOUND
    }

    /// Create a bus with no subscribers and an empty log.
    pub fn new() -> (bus: EventBus)
        ensures
            bus.wf(),
            bus.log() == Seq::<SessionEvent>::empty(),
            bus.subscriber_count() == 0,
    {
        let bus = EventBus { log: Vec::new(), cursors: Vec::new() };
        proof {
            assert(bus.log() =~= Seq::<SessionEvent>::empty());
        }
        bus
    }

    /// Open a new subscription. The subscriber starts at the end of
    /// the log: late subscribers do not see history.
    pub fn subscribe(&mut self) -> (id: usize)
        requires
            old(self).wf(),
        ensures
            final(self).wf(),
            id == old(self).subscriber_count(),
            final(self).subscriber_count() == old(self).subscriber_count() + 1,
            final(self).log() == old(self).log(),
            final(self).pending(id as int) == Seq::<SessionEvent>::empty(),
            !final(self).lagged(id as int),
            forall|i: int|
                0 <= i < old(self).subscriber_count() ==> final(self).cursor(i) == old(self).cursor(
                    i,
                ) && final(self).lagged(i) == old(self).lagged(i),
    {
        let id = self.cursors.len();
        let next = self.log.len();
        self.cursors.push(Cursor { next, lagged: false });
        proof {
            assert(final(self).pending(id as int) =~= Seq::<SessionEvent>::empty());
        }
        id
    }

    /// Publish an event: append it to the per-call log. A subscriber
    /// that would fall more than the bound behind loses its oldest
    /// pending event instead and enters a lag episode.
    pub fn publish(&mut self, e: SessionEvent)
        requires
            old(self).wf(),
            old(self).log().len() < usize::MAX,
        ensures
            final(self).wf(),
            final(self).log() == old(self).log().push(e),
            final(self).subscriber_count() == old(self).subscriber_count(),
            forall|i: int|
                0 <= i < old(self).subscriber_count() && old(self).pending(i).len()
                    < SUBSCRIBER_QUEUE_BOUND ==> final(self).cursor(i) == old(self).cursor(i)
                    && final(self).lagged(i) == old(self).lagged(i),
            forall|i: int|
                0 <= i < old(self).subscriber_count() && old(self).pending(i).len()
                    == SUBSCRIBER_QUEUE_BOUND ==> final(self).cursor(i) == old(self).cursor(i) + 1
                    && final(self).lagged(i),
    {
        self.log.push(e);
        let ghost g1 = *self;
        let n = self.cursors.len();
        let mut i: usize = 0;
        while i < n
            invariant
                i <= n,
                n == g1.cursors@.len(),
                self.log@ == g1.log@,
                self.cursors@.len() == n,
                forall|j: int| i <= j < n ==> (#[trigger] self.cursors@[j]) == g1.cursors@[j],
                forall|j: int|
                    0 <= j < i ==> (g1.log@.len() - (#[trigger] g1.cursors@[j]).next
                        <= SUBSCRIBER_QUEUE_BOUND ==> self.cursors@[j] == g1.cursors@[j]),
                forall|j: int|
                    0 <= j < i ==> (g1.log@.len() - (#[trigger] g1.cursors@[j]).next
                        > SUBSCRIBER_QUEUE_BOUND ==> (#[trigger] self.cursors@[j]).next
                        == g1.cursors@[j].next + 1 && self.cursors@[j].lagged),
                forall|j: int|
                    0 <= j < n ==> g1.log@.len() - (#[trigger] g1.cursors@[j]).next
                        <= SUBSCRIBER_QUEUE_BOUND + 1,
                forall|j: int| 0 <= j < n ==> (#[trigger] g1.cursors@[j]).next < g1.log@.len(),
            decreases n - i,
        {
            let pending_now = self.log.len() - self.cursors[i].next;
            if pending_now > SUBSCRIBER_QUEUE_BOUND {
                let c = &mut self.cursors[i];
                c.next = c.next + 1;
                c.lagged = true;
            }
            i = i + 1;
        }
        proof {
            assert forall|j: int| 0 <= j < self.cursors@.len() implies (
            #[trigger] self.cursors@[j]).next <= self.log@.len() && self.log@.len()
                - self.cursors@[j].next <= SUBSCRIBER_QUEUE_BOUND by {
                if g1.log@.len() - g1.cursors@[j].next <= SUBSCRIBER_QUEUE_BOUND {
                    assert(self.cursors@[j] == g1.cursors@[j]);
                } else {
                    assert(self.cursors@[j].next == g1.cursors@[j].next + 1);
                }
                assert(g1.cursors@[j].next < g1.log@.len());
            }
            assert(final(self).log() =~= old(self).log().push(e));
            assert forall|i_: int|
                0 <= i_ < old(self).subscriber_count() && old(self).pending(i_).len()
                    < SUBSCRIBER_QUEUE_BOUND implies final(self).cursor(i_) == old(self).cursor(i_)
                && final(self).lagged(i_) == old(self).lagged(i_) by {
                assert(old(self).pending(i_).len() == old(self).log().len() - old(self).cursor(i_));
            }
            assert forall|i_: int|
                0 <= i_ < old(self).subscriber_count() && old(self).pending(i_).len()
                    == SUBSCRIBER_QUEUE_BOUND implies final(self).cursor(i_) == old(self).cursor(i_)
                + 1 && final(self).lagged(i_) by {
                assert(old(self).pending(i_).len() == old(self).log().len() - old(self).cursor(i_));
            }
        }
    }

    /// Number of events a subscriber has yet to observe.
    pub fn pending_count(&self, id: usize) -> (n: usize)
        requires
            self.wf(),
            id < self.subscriber_count(),
        ensures
            n == self.pending(id as int).len(),
    {
        self.log.len() - self.cursors[id].next
    }

    /// Observe the next event for a subscriber, in publication order.
    ///
    /// During an unreported lag episode the subscriber first receives
    /// a `SubscriberLag` error event; then observation of the log
    /// resumes where the episode left it. Returns `None` when the
    /// subscriber has seen everything published.
    pub fn poll(&mut self, id: usize) -> (r: Option<SessionEvent>)
        requires
            old(self).wf(),
            id < old(self).subscriber_count(),
        ensures
            final(self).wf(),
            final(self).log() == old(self).log(),
            final(self).subscriber_count() == old(self).subscriber_count(),
            forall|i: int|
                0 <= i < old(self).subscriber_count() && i != id ==> final(self).cursor(i) == old(
                    self,
                ).cursor(i) && final(self).lagged(i) == old(self).lagged(i),
            old(self).lagged(id as int) ==> (r matches Some(ev) && is_subscriber_lag(ev))
                && !final(self).lagged(id as int) && final(self).cursor(id as int) == old(
                self,
            ).cursor(id as int),
            !old(self).lagged(id as int) && old(self).pending(id as int).len() == 0 ==> r is None
                && *final(self) == *old(self),
            !old(self).lagged(id as int) && old(self).pending(id as int).len() > 0 ==> (r matches
                Some(ev) && event_eq(ev, old(self).pending(id as int)[0])) && final(self).cursor(
                id as int,
            ) == old(self).cursor(id as int) + 1 && !final(self).lagged(id as int),
    {
        if self.cursors[id].lagged {
            let c = &mut self.cursors[id];
            c.lagged = false;
            Some(
                SessionEvent::Error {
                    kind: EventErrorKind::SubscriberLag,
                    detail: String::new(),
                },
            )
        } else {
            let next = self.cursors[id].next;
            if next == self.log.len() {
                None
            } else {
                let ev = clone_event(&self.log[next]);
                let c = &mut self.cursors[id];
                c.next = c.next + 1;
                proof {
                    assert(old(self).pending(id as int)[0] == old(self).log()[old(self).cursor(
                        id as int,
                    )]);
                }
                Some(ev)
            }
        }
    }
}

/// Law: the event bus is per-call FIFO. What a subscriber has yet to
/// observe is exactly a suffix of the published log, so for any two
/// events published in order, a subscriber observes them in that
/// order or has dropped the earlier one in a lag episode.
pub proof fn lemma_event_fifo(bus: &EventBus, id: int, a: int, b: int)
    requires
        bus.wf(),
        0 <= id < bus.subscriber_count(),
        0 <= a < b < bus.pending(id).len(),
    ensures
        exists|la: int, lb: int|
            0 <= la < lb < bus.log().len() && bus.log()[la] == bus.pending(id)[a] && bus.log()[lb]
                == bus.pending(id)[b],
{
    let la = bus.cursor(id) + a;
    let lb = bus.cursor(id) + b;
    assert(0 <= la < lb < bus.log().len() && bus.log()[la] == bus.pending(id)[a] && bus.log()[lb]
        == bus.pending(id)[b]);
}

} // verus!
