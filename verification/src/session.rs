//! The media session: per-call owner of the track graph.
//!
//! A session holds the tracks of one call, keyed by their unique
//! identifiers, the directed edges between them, and the call's
//! event bus. Edges are registered by track identifier — never by
//! reference — so teardown is a single pass over the track set.

use vstd::prelude::*;

use crate::event::event_eq;
use crate::event::is_subscriber_lag;
use crate::event::EventBus;
use crate::event::SUBSCRIBER_QUEUE_BOUND;
use crate::event::SessionEvent;
use crate::media::adapt_frame_channels;
use crate::media::samples_adapted;
use crate::track::push_relation;
use crate::track::PushOutcome;
use crate::track::Track;
use crate::track::TrackError;
use crate::AudioFrame;
use crate::Samples;
use crate::TrackId;

verus! {

/// Why a session control operation was rejected.
#[derive(Debug, Clone, Copy, PartialEq, Eq, Structural)]
pub enum SessionError {
    /// A track with that identifier already exists.
    DuplicateTrack,
    /// No track with that identifier exists.
    UnknownTrack,
    /// That edge already exists.
    DuplicateEdge,
    /// No such edge exists.
    UnknownEdge,
}

/// A track set that contains every track of another (position by
/// position) still holds any identifier the smaller one holds.
proof fn lemma_has_track_extends(a: &MediaSession, b: &MediaSession, x: Seq<char>)
    requires
        a.has_track(x),
        b.spec_tracks().len() >= a.spec_tracks().len(),
        forall|i: int|
            0 <= i < a.spec_tracks().len() ==> #[trigger] b.spec_tracks()[i] == a.spec_tracks()[i],
    ensures
        b.has_track(x),
{
    let k = choose|i: int|
        0 <= i < a.spec_tracks().len() && (#[trigger] a.spec_tracks()[i]).spec_id()@ == x;
    assert(b.spec_tracks()[k] == a.spec_tracks()[k]);
    assert((b.spec_tracks()[k]).spec_id()@ == x);
}

/// A track set whose identifiers read, position by position, as a
/// well-formed one's still holds any identifier the latter holds.
proof fn lemma_has_track_same_ids(a: &MediaSession, b: &MediaSession, x: Seq<char>)
    requires
        a.has_track(x),
        b.spec_tracks().len() == a.spec_tracks().len(),
        forall|i: int|
            0 <= i < a.spec_tracks().len() ==> (#[trigger] b.spec_tracks()[i]).spec_id()@
                == a.spec_tracks()[i].spec_id()@,
    ensures
        b.has_track(x),
{
    let k = choose|i: int|
        0 <= i < a.spec_tracks().len() && (#[trigger] a.spec_tracks()[i]).spec_id()@ == x;
    assert((b.spec_tracks()[k]).spec_id()@ == x);
}

/// A session whose edges read the same and whose tracks keep their
/// identifiers and well-formedness has a well-formed graph too.
proof fn lemma_graph_wf_same_ids(a: &MediaSession, b: &MediaSession)
    requires
        a.graph_wf(),
        b.edge_views() == a.edge_views(),
        b.spec_tracks().len() == a.spec_tracks().len(),
        forall|i: int|
            0 <= i < a.spec_tracks().len() ==> (#[trigger] b.spec_tracks()[i]).spec_id()@
                == a.spec_tracks()[i].spec_id()@,
        forall|i: int| 0 <= i < b.spec_tracks().len() ==> (#[trigger] b.spec_tracks()[i]).wf(),
    ensures
        b.graph_wf(),
{
    assert forall|i: int, j: int|
        0 <= i < j < b.spec_tracks().len() implies (#[trigger] b.spec_tracks()[i]).spec_id()@ != (
    #[trigger] b.spec_tracks()[j]).spec_id()@ by {
        assert(b.spec_tracks()[i].spec_id()@ == a.spec_tracks()[i].spec_id()@);
        assert(b.spec_tracks()[j].spec_id()@ == a.spec_tracks()[j].spec_id()@);
    }
    assert forall|i: int|
        0 <= i < b.edge_views().len() implies b.has_track((#[trigger] b.edge_views()[i]).0)
        && b.has_track(b.edge_views()[i].1) by {
        assert(b.edge_views()[i] == a.edge_views()[i]);
        assert(a.has_track(a.edge_views()[i].0));
        assert(a.has_track(a.edge_views()[i].1));
        lemma_has_track_same_ids(a, b, b.edge_views()[i].0);
        lemma_has_track_same_ids(a, b, b.edge_views()[i].1);
    }
    assert forall|i: int, j: int|
        0 <= i < j < b.edge_views().len() implies (#[trigger] b.edge_views()[i]) != (
    #[trigger] b.edge_views()[j]) by {
        assert(b.edge_views()[i] == a.edge_views()[i]);
        assert(b.edge_views()[j] == a.edge_views()[j]);
    }
}

/// A session whose tracks and edges read the same as a well-formed
/// one has a well-formed graph too.
proof fn lemma_graph_wf_stable(a: &MediaSession, b: &MediaSession)
    requires
        a.graph_wf(),
        b.spec_tracks() == a.spec_tracks(),
        b.edge_views() == a.edge_views(),
    ensures
        b.graph_wf(),
{
    assert forall|i: int|
        0 <= i < a.spec_tracks().len() implies #[trigger] b.spec_tracks()[i] == a.spec_tracks()[i] by {}
    assert forall|i: int, j: int|
        0 <= i < j < b.spec_tracks().len() implies (#[trigger] b.spec_tracks()[i]).spec_id()@ != (
    #[trigger] b.spec_tracks()[j]).spec_id()@ by {
        assert(b.spec_tracks()[i] == a.spec_tracks()[i]);
        assert(b.spec_tracks()[j] == a.spec_tracks()[j]);
    }
    assert forall|i: int| 0 <= i < b.spec_tracks().len() implies (
    #[trigger] b.spec_tracks()[i]).wf() by {
        assert(b.spec_tracks()[i] == a.spec_tracks()[i]);
    }
    assert forall|i: int|
        0 <= i < b.edge_views().len() implies b.has_track((#[trigger] b.edge_views()[i]).0)
        && b.has_track(b.edge_views()[i].1) by {
        assert(b.edge_views()[i] == a.edge_views()[i]);
        assert(a.has_track(a.edge_views()[i].0));
        assert(a.has_track(a.edge_views()[i].1));
        lemma_has_track_extends(a, b, b.edge_views()[i].0);
        lemma_has_track_extends(a, b, b.edge_views()[i].1);
    }
    assert forall|i: int, j: int|
        0 <= i < j < b.edge_views().len() implies (#[trigger] b.edge_views()[i]) != (
    #[trigger] b.edge_views()[j]) by {
        assert(b.edge_views()[i] == a.edge_views()[i]);
        assert(b.edge_views()[j] == a.edge_views()[j]);
    }
}

/// How the session's bus relates to its prior state after a frame
/// was offered to the track whose identifier reads `t_id`: a
/// backpressure drop is announced on the bus as a `FrameDropped`
/// event for that track, pushing subscribers as any publication
/// does; any other outcome leaves the bus untouched.
pub open spec fn drop_reported(
    bus0: EventBus,
    bus1: EventBus,
    t_id: Seq<char>,
    r: Result<PushOutcome, TrackError>,
) -> bool {
    &&& (r != Ok::<PushOutcome, TrackError>(PushOutcome::DroppedOldest) ==> bus1 == bus0)
    &&& (r == Ok::<PushOutcome, TrackError>(PushOutcome::DroppedOldest) ==> {
        &&& (exists|e: SessionEvent|
            bus1.log() == bus0.log().push(e) && (e matches SessionEvent::FrameDropped {
                track,
                count,
            } && track@ == t_id && count == 1))
        &&& bus1.subscriber_count() == bus0.subscriber_count()
        &&& (forall|i: int|
            0 <= i < bus0.subscriber_count() && bus0.pending(i).len() < SUBSCRIBER_QUEUE_BOUND
                ==> bus1.cursor(i) == bus0.cursor(i) && bus1.lagged(i) == bus0.lagged(i))
        &&& (forall|i: int|
            0 <= i < bus0.subscriber_count() && bus0.pending(i).len() == SUBSCRIBER_QUEUE_BOUND
                ==> bus1.cursor(i) == bus0.cursor(i) + 1 && bus1.lagged(i))
    })
}

/// Per-call owner of tracks, edges, and the event bus.
pub struct MediaSession {
    call_id: String,
    tracks: Vec<Track>,
    edges: Vec<(TrackId, TrackId)>,
    bus: EventBus,
    start_time: u64,
}

impl MediaSession {
    /// The session's call identifier.
    pub closed spec fn spec_call_id(&self) -> Seq<char> {
        self.call_id@
    }

    /// When the session was created, Unix-epoch milliseconds.
    pub closed spec fn spec_start_time(&self) -> u64 {
        self.start_time
    }

    /// The session's tracks, in creation order.
    pub closed spec fn spec_tracks(&self) -> Seq<Track> {
        self.tracks@
    }

    /// The directed edges, as pairs of track-identifier texts.
    pub closed spec fn edge_views(&self) -> Seq<(Seq<char>, Seq<char>)> {
        Seq::new(self.edges@.len(), |i: int| (self.edges@[i].0@, self.edges@[i].1@))
    }

    /// The session's event bus.
    pub closed spec fn spec_bus(&self) -> EventBus {
        self.bus
    }

    /// Whether a track with the given identifier text exists.
    pub open spec fn has_track(&self, id: Seq<char>) -> bool {
        exists|i: int|
            0 <= i < self.spec_tracks().len() && (#[trigger] self.spec_tracks()[i]).spec_id()@
                == id
    }

    /// Whether the given directed edge exists.
    pub open spec fn has_edge(&self, src: Seq<char>, sink: Seq<char>) -> bool {
        exists|i: int|
            0 <= i < self.edge_views().len() && #[trigger] self.edge_views()[i] == (src, sink)
    }

    /// Well-formedness of the track graph: track identifiers are
    /// unique, every track is well formed, every edge joins existing
    /// tracks, and no edge repeats.
    pub closed spec fn graph_wf(&self) -> bool {
        &&& (forall|i: int, j: int|
            0 <= i < j < self.tracks@.len() ==> (#[trigger] self.tracks@[i]).spec_id()@ != (
            #[trigger] self.tracks@[j]).spec_id()@)
        &&& (forall|i: int| 0 <= i < self.tracks@.len() ==> (#[trigger] self.tracks@[i]).wf())
        &&& (forall|i: int|
            0 <= i < self.edge_views().len() ==> self.has_track(
                (#[trigger] self.edge_views()[i]).0,
            ) && self.has_track(self.edge_views()[i].1))
        &&& (forall|i: int, j: int|
            0 <= i < j < self.edge_views().len() ==> (#[trigger] self.edge_views()[i]) != (
            #[trigger] self.edge_views()[j]))
    }

    /// Well-formedness: the track graph and the event bus.
    pub closed spec fn wf(&self) -> bool {
        &&& self.graph_wf()
        &&& self.bus.wf()
    }

    /// Create a session for one call with no tracks, no edges, and a
    /// fresh event bus.
    pub fn new(call_id: String, start_time: u64) -> (s: MediaSession)
        ensures
            s.wf(),
            s.spec_call_id() == call_id@,
            s.spec_start_time() == start_time,
            s.spec_tracks() == Seq::<Track>::empty(),
            s.edge_views() == Seq::<(Seq<char>, Seq<char>)>::empty(),
            s.spec_bus().log() == Seq::<SessionEvent>::empty(),
            s.spec_bus().subscriber_count() == 0,
    {
        let s = MediaSession {
            call_id,
            tracks: Vec::new(),
            edges: Vec::new(),
            bus: EventBus::new(),
            start_time,
        };
        proof {
            assert(s.spec_tracks() =~= Seq::<Track>::empty());
            assert(s.edge_views() =~= Seq::<(Seq<char>, Seq<char>)>::empty());
        }
        s
    }

    /// Number of tracks the session owns.
    pub fn track_count(&self) -> (n: usize)
        ensures
            n == self.spec_tracks().len(),
    {
        self.tracks.len()
    }

    /// Number of edges in the graph.
    pub fn edge_count(&self) -> (n: usize)
        ensures
            n == self.edge_views().len(),
    {
        self.edges.len()
    }

    /// Position of the track with the given identifier, if any.
    pub fn find_track(&self, id: &TrackId) -> (r: Option<usize>)
        ensures
            r matches Some(i) ==> i < self.spec_tracks().len() && self.spec_tracks()[
                i as int
            ].spec_id()@ == id@,
            r is None ==> !self.has_track(id@),
    {
        let n = self.tracks.len();
        let mut i: usize = 0;
        while i < n
            invariant
                i <= n,
                n == self.tracks@.len(),
                forall|j: int| 0 <= j < i ==> (#[trigger] self.tracks@[j]).spec_id()@ != id@,
            decreases n - i,
        {
            if *self.tracks[i].id() == *id {
                return Some(i);
            }
            i = i + 1;
        }
        None
    }

    /// Add a track; its identifier must be new to the session.
    pub fn add_track(&mut self, t: Track) -> (r: Result<(), SessionError>)
        requires
            old(self).wf(),
            t.wf(),
        ensures
            final(self).wf(),
            old(self).has_track(t.spec_id()@) ==> r == Err::<(), SessionError>(
                SessionError::DuplicateTrack,
            ) && *final(self) == *old(self),
            !old(self).has_track(t.spec_id()@) ==> r == Ok::<(), SessionError>(()) && final(self).spec_tracks() == old(self).spec_tracks().push(t),
            final(self).edge_views() == old(self).edge_views(),
            final(self).spec_bus() == old(self).spec_bus(),
            final(self).spec_call_id() == old(self).spec_call_id(),
            final(self).spec_start_time() == old(self).spec_start_time(),
    {
        match self.find_track(t.id()) {
            Some(_) => Err(SessionError::DuplicateTrack),
            None => {
                self.tracks.push(t);
                proof {
                    assert(self.edge_views() =~= old(self).edge_views());
                    assert forall|i: int|
                        0 <= i < old(self).spec_tracks().len() implies #[trigger] self.spec_tracks()[i]
                        == old(self).spec_tracks()[i] by {}
                    assert forall|i: int|
                        0 <= i < self.edge_views().len() implies self.has_track(
                        (#[trigger] self.edge_views()[i]).0,
                    ) && self.has_track(self.edge_views()[i].1) by {
                        assert(old(self).has_track(old(self).edge_views()[i].0));
                        assert(old(self).has_track(old(self).edge_views()[i].1));
                        lemma_has_track_extends(old(self), self, self.edge_views()[i].0);
                        lemma_has_track_extends(old(self), self, self.edge_views()[i].1);
                    }
                    assert forall|i: int, j: int|
                        0 <= i < j < self.tracks@.len() implies (#[trigger] self.tracks@[i]).spec_id()@
                        != (#[trigger] self.tracks@[j]).spec_id()@ by {
                        if j < old(self).tracks@.len() {
                            assert(self.tracks@[i] == old(self).tracks@[i]);
                            assert(self.tracks@[j] == old(self).tracks@[j]);
                        } else {
                            assert(self.tracks@[i] == old(self).tracks@[i]);
                            assert(self.tracks@[j] == t);
                            if old(self).spec_tracks()[i].spec_id()@ == t.spec_id()@ {
                                assert(old(self).has_track(t.spec_id()@));
                                assert(false);
                            }
                        }
                    }
                    assert forall|i: int| 0 <= i < self.tracks@.len() implies (
                    #[trigger] self.tracks@[i]).wf() by {
                        if i < old(self).tracks@.len() {
                            assert(self.tracks@[i] == old(self).tracks@[i]);
                        } else {
                            assert(self.tracks@[i] == t);
                        }
                    }
                }
                Ok(())
            },
        }
    }

    /// Position of the given directed edge, if present.
    fn find_edge(&self, src: &TrackId, sink: &TrackId) -> (r: Option<usize>)
        ensures
            r matches Some(i) ==> i < self.edge_views().len() && self.edge_views()[i as int] == (
                src@,
                sink@,
            ),
            r is None ==> !self.has_edge(src@, sink@),
    {
        let n = self.edges.len();
        let mut i: usize = 0;
        while i < n
            invariant
                i <= n,
                n == self.edges@.len(),
                forall|j: int| 0 <= j < i ==> #[trigger] self.edge_views()[j] != (src@, sink@),
            decreases n - i,
        {
            if self.edges[i].0 == *src && self.edges[i].1 == *sink {
                proof {
                    assert(self.edge_views()[i as int] == (src@, sink@));
                }
                return Some(i);
            }
            proof {
                assert(self.edge_views()[i as int] != (src@, sink@));
            }
            i = i + 1;
        }
        None
    }

    /// Wire a directed edge from a source track to a sink track; both
    /// must exist and the edge must be new.
    pub fn connect(&mut self, src: &TrackId, sink: &TrackId) -> (r: Result<(), SessionError>)
        requires
            old(self).wf(),
        ensures
            final(self).wf(),
            !old(self).has_track(src@) || !old(self).has_track(sink@) ==> r == Err::<
                (),
                SessionError,
            >(SessionError::UnknownTrack) && *final(self) == *old(self),
            old(self).has_track(src@) && old(self).has_track(sink@) && old(self).has_edge(
                src@,
                sink@,
            ) ==> r == Err::<(), SessionError>(SessionError::DuplicateEdge) && *final(self) == *old(
                self,
            ),
            old(self).has_track(src@) && old(self).has_track(sink@) && !old(self).has_edge(
                src@,
                sink@,
            ) ==> r == Ok::<(), SessionError>(()) && final(self).edge_views() == old(
                self,
            ).edge_views().push((src@, sink@)),
            final(self).spec_tracks() == old(self).spec_tracks(),
            final(self).spec_bus() == old(self).spec_bus(),
            final(self).spec_call_id() == old(self).spec_call_id(),
            final(self).spec_start_time() == old(self).spec_start_time(),
    {
        let src_found = self.find_track(src);
        let sink_found = self.find_track(sink);
        if src_found.is_none() || sink_found.is_none() {
            proof {
                if src_found is None {
                    assert(!old(self).has_track(src@));
                } else {
                    assert(!old(self).has_track(sink@));
                }
            }
            return Err(SessionError::UnknownTrack);
        }
        proof {
            assert(old(self).has_track(src@));
            assert(old(self).has_track(sink@));
        }
        match self.find_edge(src, sink) {
            Some(_) => Err(SessionError::DuplicateEdge),
            None => {
                self.edges.push((src.clone(), sink.clone()));
                proof {
                    assert(self.edge_views() =~= old(self).edge_views().push((src@, sink@)));
                    assert forall|i: int|
                        0 <= i < old(self).spec_tracks().len() implies #[trigger] self.spec_tracks()[i]
                        == old(self).spec_tracks()[i] by {}
                    assert forall|i: int|
                        0 <= i < self.edge_views().len() implies self.has_track(
                        (#[trigger] self.edge_views()[i]).0,
                    ) && self.has_track(self.edge_views()[i].1) by {
                        if i < old(self).edge_views().len() {
                            assert(self.edge_views()[i] == old(self).edge_views()[i]);
                            assert(old(self).has_track(old(self).edge_views()[i].0));
                            assert(old(self).has_track(old(self).edge_views()[i].1));
                        } else {
                            assert(self.edge_views()[i] == (src@, sink@));
                        }
                        lemma_has_track_extends(old(self), self, self.edge_views()[i].0);
                        lemma_has_track_extends(old(self), self, self.edge_views()[i].1);
                    }
                    assert forall|i: int, j: int|
                        0 <= i < j < self.edge_views().len() implies (
                    #[trigger] self.edge_views()[i]) != (#[trigger] self.edge_views()[j]) by {
                        if j < old(self).edge_views().len() {
                            assert(self.edge_views()[i] == old(self).edge_views()[i]);
                            assert(self.edge_views()[j] == old(self).edge_views()[j]);
                        } else {
                            assert(self.edge_views()[i] == old(self).edge_views()[i]);
                            assert(self.edge_views()[j] == (src@, sink@));
                            assert(!old(self).has_edge(src@, sink@));
                        }
                    }
                }
                Ok(())
            },
        }
    }

    /// Remove a directed edge; it must exist.
    pub fn disconnect(&mut self, src: &TrackId, sink: &TrackId) -> (r: Result<(), SessionError>)
        requires
            old(self).wf(),
        ensures
            final(self).wf(),
            !old(self).has_edge(src@, sink@) ==> r == Err::<(), SessionError>(
                SessionError::UnknownEdge,
            ) && *final(self) == *old(self),
            old(self).has_edge(src@, sink@) ==> r == Ok::<(), SessionError>(()) && !final(self).has_edge(src@, sink@) && (exists|k: int|
                0 <= k < old(self).edge_views().len() && old(self).edge_views()[k] == (src@, sink@)
                    && final(self).edge_views() == old(self).edge_views().remove(k)),
            final(self).spec_tracks() == old(self).spec_tracks(),
            final(self).spec_bus() == old(self).spec_bus(),
            final(self).spec_call_id() == old(self).spec_call_id(),
            final(self).spec_start_time() == old(self).spec_start_time(),
    {
        match self.find_edge(src, sink) {
            None => Err(SessionError::UnknownEdge),
            Some(i) => {
                self.edges.remove(i);
                proof {
                    assert(self.edge_views() =~= old(self).edge_views().remove(i as int));
                    assert forall|j: int|
                        0 <= j < self.edge_views().len() implies #[trigger] self.edge_views()[j]
                        != (src@, sink@) by {
                        if j < i {
                            assert(self.edge_views()[j] == old(self).edge_views()[j]);
                        } else {
                            assert(self.edge_views()[j] == old(self).edge_views()[j + 1]);
                        }
                    }
                    assert forall|k2: int|
                        0 <= k2 < old(self).spec_tracks().len() implies #[trigger] self.spec_tracks()[k2]
                        == old(self).spec_tracks()[k2] by {}
                    assert forall|j: int|
                        0 <= j < self.edge_views().len() implies self.has_track(
                        (#[trigger] self.edge_views()[j]).0,
                    ) && self.has_track(self.edge_views()[j].1) by {
                        if j < i {
                            assert(self.edge_views()[j] == old(self).edge_views()[j]);
                            assert(old(self).has_track(old(self).edge_views()[j].0));
                            assert(old(self).has_track(old(self).edge_views()[j].1));
                        } else {
                            assert(self.edge_views()[j] == old(self).edge_views()[j + 1]);
                            assert(old(self).has_track(old(self).edge_views()[j + 1].0));
                            assert(old(self).has_track(old(self).edge_views()[j + 1].1));
                        }
                        lemma_has_track_extends(old(self), self, self.edge_views()[j].0);
                        lemma_has_track_extends(old(self), self, self.edge_views()[j].1);
                    }
                }
                Ok(())
            },
        }
    }


    /// One step of a per-edge forwarder: pull the next frame from
    /// the source track, apply the default channel transform for the
    /// sink, and push the result into the sink. Returns `None` when
    /// the source has nothing queued, otherwise the sink's verdict
    /// on the forwarded frame.
    pub fn forward_edge(&mut self, src_index: usize, sink_index: usize) -> (r: Option<
        Result<PushOutcome, TrackError>,
    >)
        requires
            old(self).wf(),
            src_index < old(self).spec_tracks().len(),
            sink_index < old(self).spec_tracks().len(),
            src_index != sink_index,
            old(self).spec_bus().log().len() < usize::MAX,
            old(self).spec_tracks()[src_index as int].queued().len() > 0 ==> (old(
                self,
            ).spec_tracks()[src_index as int].queued()[0].samples matches Samples::PCM {
                samples: sv,
            } ==> sv@.len() * 2 <= usize::MAX),
        ensures
            final(self).wf(),
            final(self).edge_views() == old(self).edge_views(),
            r is None ==> final(self).spec_bus() == old(self).spec_bus(),
            r matches Some(res2) ==> drop_reported(
                old(self).spec_bus(),
                final(self).spec_bus(),
                old(self).spec_tracks()[sink_index as int].spec_id()@,
                res2,
            ),
            final(self).spec_call_id() == old(self).spec_call_id(),
            final(self).spec_start_time() == old(self).spec_start_time(),
            final(self).spec_tracks().len() == old(self).spec_tracks().len(),
            forall|i: int|
                0 <= i < old(self).spec_tracks().len() && i != src_index && i != sink_index
                    ==> final(self).spec_tracks()[i] == old(self).spec_tracks()[i],
            old(self).spec_tracks()[src_index as int].queued().len() == 0 ==> r is None
                && final(self).spec_tracks() == old(self).spec_tracks(),
            old(self).spec_tracks()[src_index as int].queued().len() > 0 ==> (r matches Some(res)
                && {
                let src0 = old(self).spec_tracks()[src_index as int];
                let sink0 = old(self).spec_tracks()[sink_index as int];
                let f = src0.queued()[0];
                &&& final(self).spec_tracks()[src_index as int].queued() == src0.queued().drop_first()
                &&& final(self).spec_tracks()[src_index as int].emitted_timestamps()
                    == src0.emitted_timestamps()
                &&& final(self).spec_tracks()[src_index as int].spec_id() == src0.spec_id()
                &&& exists|g: AudioFrame|
                    {
                        &&& g.timestamp == f.timestamp
                        &&& g.sample_rate == f.sample_rate
                        &&& #[trigger] samples_adapted(
                            f.samples,
                            src0.spec_channels(),
                            sink0.spec_channels(),
                            g.samples,
                        )
                        &&& push_relation(
                            sink0,
                            final(self).spec_tracks()[sink_index as int],
                            g,
                            res,
                        )
                    }
            }),
    {
        let src_ch = self.tracks[src_index].channels();
        let sink_ch = self.tracks[sink_index].channels();
        let src = &mut self.tracks[src_index];
        let pulled = src.pull();
        match pulled {
            None => {
                proof {
                    assert(self.spec_tracks() =~= old(self).spec_tracks());
                    assert(self.edge_views() =~= old(self).edge_views());
                    lemma_graph_wf_stable(old(self), self);
                }
                None
            },
            Some(f) => {
                let g = adapt_frame_channels(f, src_ch, sink_ch);
                let ghost mid = *self;
                let sink = &mut self.tracks[sink_index];
                proof {
                    assert(mid.tracks@[sink_index as int] == old(self).tracks@[sink_index as int]);
                }
                let res = sink.push(g);
                proof {
                    assert(self.edge_views() =~= old(self).edge_views());
                    assert forall|i: int|
                        0 <= i < old(self).spec_tracks().len() implies (
                    #[trigger] self.spec_tracks()[i]).spec_id()@ == old(self).spec_tracks()[
                        i
                    ].spec_id()@ && self.spec_tracks()[i].wf() by {
                        if i == src_index {
                        } else if i == sink_index {
                        } else {
                            assert(self.spec_tracks()[i] == old(self).spec_tracks()[i]);
                        }
                    }
                    lemma_graph_wf_same_ids(old(self), self);
                    assert(samples_adapted(
                        f.samples,
                        old(self).spec_tracks()[src_index as int].spec_channels(),
                        old(self).spec_tracks()[sink_index as int].spec_channels(),
                        g.samples,
                    ));
                    assert(push_relation(
                        old(self).spec_tracks()[sink_index as int],
                        self.spec_tracks()[sink_index as int],
                        g,
                        res,
                    ));
                }
                if matches!(res, Ok(PushOutcome::DroppedOldest)) {
                    let tid = self.tracks[sink_index].id().clone();
                    let ev = SessionEvent::FrameDropped { track: tid, count: 1 };
                    let ghost mid2 = *self;
                    self.bus.publish(ev);
                    proof {
                        assert(self.edge_views() =~= mid2.edge_views());
                        lemma_graph_wf_stable(&mid2, self);
                        assert(self.spec_bus().log() == old(self).spec_bus().log().push(ev));
                        assert(ev matches SessionEvent::FrameDropped { track, count } && track@
                            == old(self).spec_tracks()[sink_index as int].spec_id()@ && count == 1);
                        assert(exists|e: SessionEvent|
                            self.spec_bus().log() == old(self).spec_bus().log().push(e) && (e matches
                                SessionEvent::FrameDropped { track, count } && track@ == old(
                                self,
                            ).spec_tracks()[sink_index as int].spec_id()@ && count == 1));
                    }
                }
                Some(res)
            },
        }
    }

    /// Feed a produced frame into one of the session's tracks; the
    /// track's clock and rate checks apply.
    pub fn push_frame(&mut self, index: usize, frame: AudioFrame) -> (r: Result<
        PushOutcome,
        TrackError,
    >)
        requires
            old(self).wf(),
            index < old(self).spec_tracks().len(),
            old(self).spec_bus().log().len() < usize::MAX,
        ensures
            final(self).wf(),
            final(self).edge_views() == old(self).edge_views(),
            drop_reported(
                old(self).spec_bus(),
                final(self).spec_bus(),
                old(self).spec_tracks()[index as int].spec_id()@,
                r,
            ),
            final(self).spec_call_id() == old(self).spec_call_id(),
            final(self).spec_start_time() == old(self).spec_start_time(),
            final(self).spec_tracks().len() == old(self).spec_tracks().len(),
            forall|i: int|
                0 <= i < old(self).spec_tracks().len() && i != index ==> final(self).spec_tracks()[
                    i
                ] == old(self).spec_tracks()[i],
            push_relation(
                old(self).spec_tracks()[index as int],
                final(self).spec_tracks()[index as int],
                frame,
                r,
            ),
    {
        let t = &mut self.tracks[index];
        let r = t.push(frame);
        proof {
            assert(self.edge_views() =~= old(self).edge_views());
            assert forall|i: int|
                0 <= i < old(self).spec_tracks().len() implies (
            #[trigger] self.spec_tracks()[i]).spec_id()@ == old(self).spec_tracks()[i].spec_id()@
                && self.spec_tracks()[i].wf() by {
                if i != index {
                    assert(self.spec_tracks()[i] == old(self).spec_tracks()[i]);
                }
            }
            lemma_graph_wf_same_ids(old(self), self);
        }
        if matches!(r, Ok(PushOutcome::DroppedOldest)) {
            let tid = self.tracks[index].id().clone();
            let ev = SessionEvent::FrameDropped { track: tid, count: 1 };
            let ghost mid = *self;
            self.bus.publish(ev);
            proof {
                assert(self.edge_views() =~= mid.edge_views());
                lemma_graph_wf_stable(&mid, self);
                assert(self.spec_bus().log() == old(self).spec_bus().log().push(ev));
                assert(ev matches SessionEvent::FrameDropped { track, count } && track@ == old(
                    self,
                ).spec_tracks()[index as int].spec_id()@ && count == 1);
                assert(exists|e: SessionEvent|
                    self.spec_bus().log() == old(self).spec_bus().log().push(e) && (e matches
                        SessionEvent::FrameDropped { track, count } && track@ == old(
                        self,
                    ).spec_tracks()[index as int].spec_id()@ && count == 1));
            }
        }
        r
    }

    /// Consume the next frame from one of the session's tracks.
    pub fn pull_frame(&mut self, index: usize) -> (r: Option<AudioFrame>)
        requires
            old(self).wf(),
            index < old(self).spec_tracks().len(),
        ensures
            final(self).wf(),
            final(self).edge_views() == old(self).edge_views(),
            final(self).spec_bus() == old(self).spec_bus(),
            final(self).spec_call_id() == old(self).spec_call_id(),
            final(self).spec_start_time() == old(self).spec_start_time(),
            final(self).spec_tracks().len() == old(self).spec_tracks().len(),
            forall|i: int|
                0 <= i < old(self).spec_tracks().len() && i != index ==> final(self).spec_tracks()[
                    i
                ] == old(self).spec_tracks()[i],
            old(self).spec_tracks()[index as int].queued().len() == 0 ==> r is None
                && final(self).spec_tracks() == old(self).spec_tracks(),
            old(self).spec_tracks()[index as int].queued().len() > 0 ==> r == Some(
                old(self).spec_tracks()[index as int].queued()[0],
            ) && final(self).spec_tracks()[index as int].queued() == old(self).spec_tracks()[
                index as int
            ].queued().drop_first(),
    {
        let t = &mut self.tracks[index];
        let r = t.pull();
        proof {
            assert(self.edge_views() =~= old(self).edge_views());
            if old(self).spec_tracks()[index as int].queued().len() == 0 {
                assert(self.spec_tracks() =~= old(self).spec_tracks());
            }
            assert forall|i: int|
                0 <= i < old(self).spec_tracks().len() implies (
            #[trigger] self.spec_tracks()[i]).spec_id()@ == old(self).spec_tracks()[i].spec_id()@
                && self.spec_tracks()[i].wf() by {
                if i != index {
                    assert(self.spec_tracks()[i] == old(self).spec_tracks()[i]);
                }
            }
            lemma_graph_wf_same_ids(old(self), self);
        }
        r
    }

    /// Position of some edge touching the given track, if any.
    fn find_edge_touching(&self, id: &TrackId) -> (r: Option<usize>)
        ensures
            r matches Some(i) ==> i < self.edge_views().len() && ((#[trigger] self.edge_views()[
                i as int
            ]).0 == id@ || self.edge_views()[i as int].1 == id@),
            r is None ==> forall|m: int|
                0 <= m < self.edge_views().len() ==> (#[trigger] self.edge_views()[m]).0 != id@
                    && self.edge_views()[m].1 != id@,
    {
        let n = self.edges.len();
        let mut i: usize = 0;
        while i < n
            invariant
                i <= n,
                n == self.edges@.len(),
                forall|m: int|
                    0 <= m < i ==> (#[trigger] self.edge_views()[m]).0 != id@
                        && self.edge_views()[m].1 != id@,
            decreases n - i,
        {
            if self.edges[i].0 == *id || self.edges[i].1 == *id {
                proof {
                    assert(self.edge_views()[i as int] == (self.edges@[i as int].0@, self.edges@[
                        i as int
                    ].1@));
                }
                return Some(i);
            }
            proof {
                assert(self.edge_views()[i as int] == (self.edges@[i as int].0@, self.edges@[
                    i as int
                ].1@));
            }
            i = i + 1;
        }
        None
    }

    /// Remove a track mid-call, dropping every edge that touches it
    /// so the graph stays closed; the track must exist.
    #[verifier::rlimit(60)]
    pub fn remove_track(&mut self, id: &TrackId) -> (r: Result<(), SessionError>)
        requires
            old(self).wf(),
        ensures
            final(self).wf(),
            final(self).spec_bus() == old(self).spec_bus(),
            final(self).spec_call_id() == old(self).spec_call_id(),
            final(self).spec_start_time() == old(self).spec_start_time(),
            !old(self).has_track(id@) ==> r == Err::<(), SessionError>(SessionError::UnknownTrack)
                && final(self).spec_tracks() == old(self).spec_tracks() && final(self).edge_views()
                == old(self).edge_views(),
            old(self).has_track(id@) ==> {
                &&& r == Ok::<(), SessionError>(())
                &&& !final(self).has_track(id@)
                &&& (exists|k: int|
                    0 <= k < old(self).spec_tracks().len() && (#[trigger] old(self).spec_tracks()[
                        k
                    ]).spec_id()@ == id@ && final(self).spec_tracks() == old(
                        self,
                    ).spec_tracks().remove(k))
                &&& (forall|a: Seq<char>, b: Seq<char>|
                    #[trigger] final(self).has_edge(a, b) <==> (old(self).has_edge(a, b) && a
                        != id@ && b != id@))
            },
    {
        let found = self.find_track(id);
        let idx: usize;
        match found {
            None => {
                return Err(SessionError::UnknownTrack);
            },
            Some(i) => {
                idx = i;
            },
        }
        let mut done = false;
        while !done
            invariant
                self.tracks@ == old(self).tracks@,
                self.bus == old(self).bus,
                self.call_id == old(self).call_id,
                self.start_time == old(self).start_time,
                forall|m1: int, m2: int|
                    0 <= m1 < m2 < self.edge_views().len() ==> (#[trigger] self.edge_views()[m1])
                        != (#[trigger] self.edge_views()[m2]),
                forall|m: int|
                    0 <= m < self.edge_views().len() ==> old(self).has_edge(
                        (#[trigger] self.edge_views()[m]).0,
                        self.edge_views()[m].1,
                    ),
                forall|jo: int|
                    0 <= jo < old(self).edge_views().len() && (#[trigger] old(self).edge_views()[
                        jo
                    ]).0 != id@ && old(self).edge_views()[jo].1 != id@ ==> self.has_edge(
                        old(self).edge_views()[jo].0,
                        old(self).edge_views()[jo].1,
                    ),
                done ==> forall|m: int|
                    0 <= m < self.edge_views().len() ==> (#[trigger] self.edge_views()[m]).0 != id@
                        && self.edge_views()[m].1 != id@,
            decreases self.edges@.len() + (if done {
                0int
            } else {
                1int
            }),
        {
            let found_edge = self.find_edge_touching(id);
            match found_edge {
                None => {
                    done = true;
                },
                Some(j) => {
                    let ghost prior = *self;
                    self.edges.remove(j);
                    proof {
                        assert(self.edge_views() =~= prior.edge_views().remove(j as int));
                        assert forall|m: int|
                            0 <= m < self.edge_views().len() implies #[trigger] self.edge_views()[
                            m
                        ] == (if m < j {
                            prior.edge_views()[m]
                        } else {
                            prior.edge_views()[m + 1]
                        }) by {}
                        assert forall|jo: int|
                            0 <= jo < old(self).edge_views().len() && (#[trigger] old(
                                self,
                            ).edge_views()[jo]).0 != id@ && old(self).edge_views()[jo].1 != id@
                            implies self.has_edge(
                            old(self).edge_views()[jo].0,
                            old(self).edge_views()[jo].1,
                        ) by {
                            let a = old(self).edge_views()[jo].0;
                            let b = old(self).edge_views()[jo].1;
                            assert(prior.has_edge(a, b));
                            let m = choose|m: int|
                                0 <= m < prior.edge_views().len() && #[trigger] prior.edge_views()[
                                    m
                                ] == (a, b);
                            assert(m != j);
                            if m < j {
                                assert(self.edge_views()[m] == (a, b));
                            } else {
                                assert(self.edge_views()[m - 1] == (a, b));
                            }
                        }
                    }
                },
            }
        }
        let ghost pre_tracks = *self;
        self.tracks.remove(idx);
        proof {
            let ti = idx as int;
            assert(old(self).spec_tracks()[ti].spec_id()@ == id@);
            assert(self.spec_tracks() == old(self).spec_tracks().remove(ti));
            assert(self.edge_views() =~= pre_tracks.edge_views());
            assert forall|j: int|
                0 <= j < self.spec_tracks().len() implies (#[trigger] self.spec_tracks()[
                j
            ]).spec_id()@ != id@ && self.spec_tracks()[j].wf() by {
                if j < ti {
                    assert(self.spec_tracks()[j] == old(self).spec_tracks()[j]);
                } else {
                    assert(self.spec_tracks()[j] == old(self).spec_tracks()[j + 1]);
                }
            }
            assert(!self.has_track(id@));
            assert forall|j1: int, j2: int|
                0 <= j1 < j2 < self.spec_tracks().len() implies (#[trigger] self.spec_tracks()[
                j1
            ]).spec_id()@ != (#[trigger] self.spec_tracks()[j2]).spec_id()@ by {
                let o1 = if j1 < ti {
                    j1
                } else {
                    j1 + 1
                };
                let o2 = if j2 < ti {
                    j2
                } else {
                    j2 + 1
                };
                assert(self.spec_tracks()[j1] == old(self).spec_tracks()[o1]);
                assert(self.spec_tracks()[j2] == old(self).spec_tracks()[o2]);
            }
            assert forall|m: int|
                0 <= m < self.edge_views().len() implies self.has_track(
                (#[trigger] self.edge_views()[m]).0,
            ) && self.has_track(self.edge_views()[m].1) by {
                assert(old(self).has_edge(self.edge_views()[m].0, self.edge_views()[m].1));
                let j = choose|j2: int|
                    0 <= j2 < old(self).edge_views().len() && #[trigger] old(self).edge_views()[j2]
                        == (self.edge_views()[m].0, self.edge_views()[m].1);
                assert(old(self).has_track(old(self).edge_views()[j].0));
                assert(old(self).has_track(old(self).edge_views()[j].1));
                assert(self.edge_views()[m].0 != id@ && self.edge_views()[m].1 != id@);
                let w0 = choose|w: int|
                    0 <= w < old(self).spec_tracks().len() && (#[trigger] old(self).spec_tracks()[
                        w
                    ]).spec_id()@ == old(self).edge_views()[j].0;
                assert(w0 != ti);
                let n0 = if w0 < ti {
                    w0
                } else {
                    w0 - 1
                };
                assert(self.spec_tracks()[n0] == old(self).spec_tracks()[w0]);
                let w1 = choose|w: int|
                    0 <= w < old(self).spec_tracks().len() && (#[trigger] old(self).spec_tracks()[
                        w
                    ]).spec_id()@ == old(self).edge_views()[j].1;
                assert(w1 != ti);
                let n1 = if w1 < ti {
                    w1
                } else {
                    w1 - 1
                };
                assert(self.spec_tracks()[n1] == old(self).spec_tracks()[w1]);
            }
            assert forall|a: Seq<char>, b: Seq<char>|
                #[trigger] self.has_edge(a, b) implies (old(self).has_edge(a, b) && a != id@ && b
                    != id@) by {
                let m = choose|m: int|
                    0 <= m < self.edge_views().len() && #[trigger] self.edge_views()[m] == (a, b);
                assert(old(self).has_edge(self.edge_views()[m].0, self.edge_views()[m].1));
                assert(self.edge_views()[m].0 != id@ && self.edge_views()[m].1 != id@);
            }
            assert forall|a: Seq<char>, b: Seq<char>|
                old(self).has_edge(a, b) && a != id@ && b != id@ implies #[trigger] self.has_edge(
                    a,
                    b,
                ) by {
                let jo = choose|j2: int|
                    0 <= j2 < old(self).edge_views().len() && #[trigger] old(self).edge_views()[j2]
                        == (a, b);
                assert(pre_tracks.has_edge(a, b));
                let m = choose|m2: int|
                    0 <= m2 < pre_tracks.edge_views().len() && #[trigger] pre_tracks.edge_views()[
                        m2
                    ] == (a, b);
                assert(self.edge_views()[m] == (a, b));
            }
        }
        Ok(())
    }

    /// Publish an event on the session's bus.
    pub fn publish_event(&mut self, e: SessionEvent)
        requires
            old(self).wf(),
            old(self).spec_bus().log().len() < usize::MAX,
        ensures
            final(self).wf(),
            final(self).spec_bus().log() == old(self).spec_bus().log().push(e),
            final(self).spec_bus().subscriber_count() == old(self).spec_bus().subscriber_count(),
            final(self).spec_tracks() == old(self).spec_tracks(),
            final(self).edge_views() == old(self).edge_views(),
            final(self).spec_call_id() == old(self).spec_call_id(),
            final(self).spec_start_time() == old(self).spec_start_time(),
    {
        self.bus.publish(e);
        proof {
            assert(self.edge_views() =~= old(self).edge_views());
            lemma_graph_wf_stable(old(self), self);
        }
    }

    /// Open a subscription on the session's bus.
    pub fn subscribe_events(&mut self) -> (id: usize)
        requires
            old(self).wf(),
        ensures
            final(self).wf(),
            id == old(self).spec_bus().subscriber_count(),
            final(self).spec_bus().subscriber_count() == old(self).spec_bus().subscriber_count()
                + 1,
            final(self).spec_bus().log() == old(self).spec_bus().log(),
            final(self).spec_tracks() == old(self).spec_tracks(),
            final(self).edge_views() == old(self).edge_views(),
    {
        let id = self.bus.subscribe();
        proof {
            assert(self.edge_views() =~= old(self).edge_views());
            lemma_graph_wf_stable(old(self), self);
        }
        id
    }

    /// Observe the next event for a subscriber.
    pub fn poll_events(&mut self, id: usize) -> (r: Option<SessionEvent>)
        requires
            old(self).wf(),
            id < old(self).spec_bus().subscriber_count(),
        ensures
            final(self).wf(),
            final(self).spec_tracks() == old(self).spec_tracks(),
            final(self).edge_views() == old(self).edge_views(),
            final(self).spec_bus().log() == old(self).spec_bus().log(),
            final(self).spec_bus().subscriber_count() == old(self).spec_bus().subscriber_count(),
            forall|i: int|
                0 <= i < old(self).spec_bus().subscriber_count() && i != id ==> final(self).spec_bus().cursor(i) == old(self).spec_bus().cursor(i) && final(self).spec_bus().lagged(i) == old(self).spec_bus().lagged(i),
            old(self).spec_bus().lagged(id as int) ==> (r matches Some(ev) && is_subscriber_lag(ev))
                && !final(self).spec_bus().lagged(id as int) && final(self).spec_bus().cursor(
                id as int,
            ) == old(self).spec_bus().cursor(id as int),
            !old(self).spec_bus().lagged(id as int) && old(self).spec_bus().pending(
                id as int,
            ).len() == 0 ==> r is None && final(self).spec_bus() == old(self).spec_bus(),
            !old(self).spec_bus().lagged(id as int) && old(self).spec_bus().pending(
                id as int,
            ).len() > 0 ==> (r matches Some(ev) && event_eq(
                ev,
                old(self).spec_bus().pending(id as int)[0],
            )) && final(self).spec_bus().cursor(id as int) == old(self).spec_bus().cursor(id as int)
                + 1 && !final(self).spec_bus().lagged(id as int),
    {
        let r = self.bus.poll(id);
        proof {
            assert(self.edge_views() =~= old(self).edge_views());
            lemma_graph_wf_stable(old(self), self);
        }
        r
    }

    /// Tear the session down: drop every edge, then destroy the
    /// tracks in reverse creation order, and announce the end of the
    /// call once on the bus.
    pub fn shutdown(&mut self, reason: String)
        requires
            old(self).wf(),
            old(self).spec_bus().log().len() < usize::MAX,
        ensures
            final(self).wf(),
            final(self).spec_tracks() == Seq::<Track>::empty(),
            final(self).edge_views() == Seq::<(Seq<char>, Seq<char>)>::empty(),
            final(self).spec_bus().log().len() == old(self).spec_bus().log().len() + 1,
            final(self).spec_bus().log().last() == (SessionEvent::CallEnded { reason }),
    {
        self.edges = Vec::new();
        let ghost g = *self;
        while self.tracks.len() > 0
            invariant
                self.edges@ == g.edges@,
                self.bus == g.bus,
                self.call_id == g.call_id,
                self.start_time == g.start_time,
            decreases self.tracks@.len(),
        {
            let _ = self.tracks.pop();
        }
        proof {
            assert(self.spec_tracks() =~= Seq::<Track>::empty());
            assert(self.edge_views() =~= Seq::<(Seq<char>, Seq<char>)>::empty());
        }
        self.bus.publish(SessionEvent::CallEnded { reason });
    }
}

} // verus!
