//! Tracks: named, typed audio pipes with a local clock.
//!
//! A track owns a bounded FIFO queue of frames. Pushing enforces the
//! track's clock (timestamps strictly increasing) and its configured
//! sample rate; when the queue is full the oldest frame is dropped so
//! that realtime playback stays fresh.

use vstd::prelude::*;

use crate::AudioFrame;
use crate::TrackId;

verus! {

/// Default queue bound: two seconds of audio at a 20 ms packet time.
pub const DEFAULT_TRACK_CAPACITY: usize = 100;

/// Direction of a track within its session.
#[derive(Debug, Clone, Copy, PartialEq, Eq, Structural)]
pub enum TrackDirection {
    /// Produces frames into the session graph.
    Source,
    /// Consumes frames from the session graph.
    Sink,
    /// Both produces and consumes.
    Duplex,
}

/// Why a push was rejected.
#[derive(Debug, Clone, Copy, PartialEq, Eq, Structural)]
pub enum TrackError {
    /// The frame's timestamp was not strictly greater than the last
    /// accepted timestamp.
    ClockRegression,
    /// The frame's sample rate disagrees with the track's.
    SampleRateMismatch,
}

/// What an accepted push did to the queue.
#[derive(Debug, Clone, Copy, PartialEq, Eq, Structural)]
pub enum PushOutcome {
    /// The frame was enqueued.
    Queued,
    /// The frame was enqueued and the oldest queued frame was dropped
    /// to honor the queue bound; the session reports the drop.
    DroppedOldest,
}

/// A sequence of timestamps in strictly increasing order.
pub open spec fn strictly_increasing(s: Seq<u64>) -> bool {
    forall|i: int, j: int| 0 <= i < j < s.len() ==> s[i] < s[j]
}

/// A named, typed source or sink of audio frames with its own clock.
pub struct Track {
    id: TrackId,
    direction: TrackDirection,
    sample_rate: u32,
    channels: u16,
    capacity: usize,
    queue: Vec<AudioFrame>,
    taps: Vec<Vec<AudioFrame>>,
    last_timestamp: Option<u64>,
    closed: bool,
    emitted: Ghost<Seq<u64>>,
}

impl Track {
    /// The timestamps of every frame this track has accepted, oldest
    /// first.
    pub closed spec fn emitted_timestamps(&self) -> Seq<u64> {
        self.emitted@
    }

    /// The frames currently queued, oldest first.
    pub closed spec fn queued(&self) -> Seq<AudioFrame> {
        self.queue@
    }

    /// Number of open subscriptions.
    pub closed spec fn tap_count(&self) -> int {
        self.taps@.len() as int
    }

    /// The frames a subscriber has not yet consumed, oldest first.
    pub closed spec fn tap_pending(&self, i: int) -> Seq<AudioFrame> {
        self.taps@[i]@
    }

    /// The timestamp of the last accepted frame, if any.
    pub closed spec fn last_ts(&self) -> Option<u64> {
        self.last_timestamp
    }

    /// The track's configured sample rate.
    pub closed spec fn spec_sample_rate(&self) -> u32 {
        self.sample_rate
    }

    /// The track's configured channel count.
    pub closed spec fn spec_channels(&self) -> u16 {
        self.channels
    }

    /// The track's queue bound in frames.
    pub closed spec fn spec_capacity(&self) -> usize {
        self.capacity
    }

    /// The track's identifier.
    pub closed spec fn spec_id(&self) -> TrackId {
        self.id
    }

    /// Whether the source has been marked drained.
    pub closed spec fn spec_closed(&self) -> bool {
        self.closed
    }

    /// Well-formedness: the clock never ran backwards, queued frames
    /// carry the track's rate, the queue is in clock order and within
    /// its bound.
    pub closed spec fn wf(&self) -> bool {
        &&& strictly_increasing(self.emitted@)
        &&& (self.last_timestamp is None <==> self.emitted@.len() == 0)
        &&& (self.last_timestamp matches Some(t) ==> self.emitted@.len() > 0 && self.emitted@.last()
            == t)
        &&& (forall|i: int|
            0 <= i < self.queue@.len() ==> self.queue@[i].sample_rate == self.sample_rate)
        &&& (forall|i: int, j: int|
            0 <= i < j < self.queue@.len() ==> self.queue@[i].timestamp < self.queue@[j].timestamp)
        &&& (self.queue@.len() > 0 ==> self.last_timestamp is Some)
        &&& (forall|i: int|
            0 <= i < self.queue@.len() ==> #[trigger] self.queue@[i].timestamp <= last_value(
                self.last_timestamp,
            ))
        &&& self.capacity >= 1
        &&& self.queue@.len() <= self.capacity
        &&& (forall|i: int| 0 <= i < self.taps@.len() ==> (#[trigger] self.taps@[i])@.len() <= self.capacity)
    }

    /// Create an empty track with the given identity, direction,
    /// format, and queue bound.
    pub fn new(
        id: TrackId,
        direction: TrackDirection,
        sample_rate: u32,
        channels: u16,
        capacity: usize,
    ) -> (t: Track)
        requires
            capacity >= 1,
        ensures
            t.wf(),
            t.spec_id() == id,
            t.spec_sample_rate() == sample_rate,
            t.spec_channels() == channels,
            t.spec_capacity() == capacity,
            t.emitted_timestamps() == Seq::<u64>::empty(),
            t.queued() == Seq::<AudioFrame>::empty(),
            t.last_ts() is None,
            !t.spec_closed(),
            t.tap_count() == 0,
    {
        let t = Track {
            id,
            direction,
            sample_rate,
            channels,
            capacity,
            queue: Vec::new(),
            taps: Vec::new(),
            last_timestamp: None,
            closed: false,
            emitted: Ghost(Seq::empty()),
        };
        proof {
            assert(t.emitted_timestamps() =~= Seq::<u64>::empty());
            assert(t.queued() =~= Seq::<AudioFrame>::empty());
        }
        t
    }

    /// The track's identifier.
    pub fn id(&self) -> (r: &TrackId)
        ensures
            *r == self.spec_id(),
    {
        &self.id
    }

    /// Number of frames waiting in the queue.
    pub fn len(&self) -> (n: usize)
        ensures
            n == self.queued().len(),
    {
        self.queue.len()
    }

    /// Whether the source has been closed.
    pub fn is_closed(&self) -> (b: bool)
        ensures
            b == self.spec_closed(),
    {
        self.closed
    }

    /// The track's configured sample rate.
    pub fn sample_rate(&self) -> (r: u32)
        ensures
            r == self.spec_sample_rate(),
    {
        self.sample_rate
    }

    /// The track's configured channel count.
    pub fn channels(&self) -> (r: u16)
        ensures
            r == self.spec_channels(),
    {
        self.channels
    }

    /// Enqueue a produced frame.
    ///
    /// Rejects a frame whose sample rate disagrees with the track's
    /// (`SampleRateMismatch`) or whose timestamp does not advance the
    /// track's clock (`ClockRegression`); a rejected frame leaves the
    /// track unchanged. An accepted frame is appended; if the queue
    /// was full, the oldest queued frame is dropped first.
    pub fn push(&mut self, frame: AudioFrame) -> (r: Result<PushOutcome, TrackError>)
        requires
            old(self).wf(),
        ensures
            final(self).wf(),
            push_relation(*old(self), *final(self), frame, r),
    {
        let r = self.push_inner(frame);
        r
    }

    /// The body of `push`, with its contract written out clause by
    /// clause; `push_relation` names the same relation for callers
    /// that pass frames along, such as the session's forwarders.
    fn push_inner(&mut self, frame: AudioFrame) -> (r: Result<PushOutcome, TrackError>)
        requires
            old(self).wf(),
        ensures
            final(self).wf(),
            frame.sample_rate != old(self).spec_sample_rate() ==> r == Err::<
                PushOutcome,
                TrackError,
            >(TrackError::SampleRateMismatch) && *final(self) == *old(self),
            frame.sample_rate == old(self).spec_sample_rate() && !clock_advances(
                old(self).last_ts(),
                frame.timestamp,
            ) ==> r == Err::<PushOutcome, TrackError>(TrackError::ClockRegression) && *final(self)
                == *old(self),
            frame.sample_rate == old(self).spec_sample_rate() && clock_advances(
                old(self).last_ts(),
                frame.timestamp,
            ) ==> {
                &&& final(self).emitted_timestamps() == old(self).emitted_timestamps().push(
                    frame.timestamp,
                )
                &&& final(self).last_ts() == Some(frame.timestamp)
                &&& (old(self).queued().len() < old(self).spec_capacity() ==> r == Ok::<
                    PushOutcome,
                    TrackError,
                >(PushOutcome::Queued) && final(self).queued() == old(self).queued().push(frame))
                &&& (old(self).queued().len() == old(self).spec_capacity() ==> r == Ok::<
                    PushOutcome,
                    TrackError,
                >(PushOutcome::DroppedOldest) && final(self).queued() == old(
                    self,
                ).queued().drop_first().push(frame))
                &&& final(self).tap_count() == old(self).tap_count()
                &&& (forall|i: int|
                    0 <= i < old(self).tap_count() ==> #[trigger] tap_updated(
                        *old(self),
                        *final(self),
                        frame,
                        i,
                    ))
            },
            final(self).spec_id() == old(self).spec_id(),
            final(self).spec_sample_rate() == old(self).spec_sample_rate(),
            final(self).spec_channels() == old(self).spec_channels(),
            final(self).spec_capacity() == old(self).spec_capacity(),
            final(self).spec_closed() == old(self).spec_closed(),
    {
        if frame.sample_rate != self.sample_rate {
            return Err(TrackError::SampleRateMismatch);
        }
        let advances: bool = match self.last_timestamp {
            None => true,
            Some(t) => frame.timestamp > t,
        };
        if !advances {
            return Err(TrackError::ClockRegression);
        }
        let ghost g0 = *self;
        let cap = self.capacity;
        let n_taps = self.taps.len();
        let mut ti: usize = 0;
        while ti < n_taps
            invariant
                ti <= n_taps,
                n_taps == g0.taps@.len(),
                self.taps@.len() == n_taps,
                cap == g0.capacity,
                cap >= 1,
                forall|j: int| 0 <= j < n_taps ==> (#[trigger] g0.taps@[j])@.len() <= cap,
                forall|j: int| ti <= j < n_taps ==> (#[trigger] self.taps@[j]) == g0.taps@[j],
                forall|j: int| 0 <= j < ti ==> #[trigger] tap_updated(g0, *self, frame, j),
                forall|j: int| 0 <= j < ti ==> (#[trigger] self.taps@[j])@.len() <= cap,
                self.queue@ == g0.queue@,
                self.capacity == g0.capacity,
                self.last_timestamp == g0.last_timestamp,
                self.emitted@ == g0.emitted@,
                self.id == g0.id,
                self.sample_rate == g0.sample_rate,
                self.channels == g0.channels,
                self.closed == g0.closed,
                self.direction == g0.direction,
            decreases n_taps - ti,
        {
            let c = copy_frame(&frame);
            let ghost prev = *self;
            let tap = &mut self.taps[ti];
            if tap.len() == cap {
                tap.remove(0);
            }
            tap.push(c);
            proof {
                assert((self.taps@[ti as int])@ == (if g0.taps@[ti as int]@.len() < cap {
                    g0.taps@[ti as int]@.push(c)
                } else {
                    g0.taps@[ti as int]@.drop_first().push(c)
                }));
                assert forall|j: int| 0 <= j < ti + 1 implies #[trigger] tap_updated(
                    g0,
                    *self,
                    frame,
                    j,
                ) by {
                    if j < ti {
                        assert(self.taps@[j] == prev.taps@[j]);
                        assert(tap_updated(g0, prev, frame, j));
                        let c0 = choose|c0: AudioFrame|
                            frame_eq(c0, frame) && prev.tap_pending(j) == (if g0.tap_pending(
                                j,
                            ).len() < g0.spec_capacity() {
                                g0.tap_pending(j).push(c0)
                            } else {
                                g0.tap_pending(j).drop_first().push(c0)
                            });
                        assert(frame_eq(c0, frame));
                        assert(self.tap_pending(j) == (if g0.tap_pending(j).len()
                            < g0.spec_capacity() {
                            g0.tap_pending(j).push(c0)
                        } else {
                            g0.tap_pending(j).drop_first().push(c0)
                        }));
                    } else {
                        assert(frame_eq(c, frame));
                        assert(self.tap_pending(j) == (if g0.tap_pending(j).len()
                            < g0.spec_capacity() {
                            g0.tap_pending(j).push(c)
                        } else {
                            g0.tap_pending(j).drop_first().push(c)
                        }));
                    }
                }
            }
            ti = ti + 1;
        }
        let ghost g1 = *self;
        let ts: u64 = frame.timestamp;
        let mut dropped: bool = false;
        if self.queue.len() == self.capacity {
            self.queue.remove(0);
            dropped = true;
        }
        self.queue.push(frame);
        self.last_timestamp = Some(ts);
        proof {
            self.emitted@ = self.emitted@.push(ts);
        }
        proof {
            assert forall|i: int|
                0 <= i < old(self).tap_count() implies #[trigger] tap_updated(
                *old(self),
                *self,
                frame,
                i,
            ) by {
                assert(tap_updated(g0, g1, frame, i));
                let c0 = choose|c0: AudioFrame|
                    frame_eq(c0, frame) && g1.tap_pending(i) == (if g0.tap_pending(i).len()
                        < g0.spec_capacity() {
                        g0.tap_pending(i).push(c0)
                    } else {
                        g0.tap_pending(i).drop_first().push(c0)
                    });
                assert(frame_eq(c0, frame));
                assert(self.tap_pending(i) == (if old(self).tap_pending(i).len() < old(
                    self,
                ).spec_capacity() {
                    old(self).tap_pending(i).push(c0)
                } else {
                    old(self).tap_pending(i).drop_first().push(c0)
                }));
            }
        }
        if dropped {
            Ok(PushOutcome::DroppedOldest)
        } else {
            Ok(PushOutcome::Queued)
        }
    }

    /// Consume the next frame, oldest first; `None` when the queue is
    /// empty. Non-blocking.
    pub fn pull(&mut self) -> (r: Option<AudioFrame>)
        requires
            old(self).wf(),
        ensures
            final(self).wf(),
            old(self).queued().len() == 0 ==> r is None && *final(self) == *old(self),
            old(self).queued().len() > 0 ==> r == Some(old(self).queued()[0])
                && final(self).queued() == old(self).queued().drop_first(),
            final(self).emitted_timestamps() == old(self).emitted_timestamps(),
            final(self).last_ts() == old(self).last_ts(),
            final(self).spec_id() == old(self).spec_id(),
            final(self).spec_sample_rate() == old(self).spec_sample_rate(),
            final(self).spec_channels() == old(self).spec_channels(),
            final(self).spec_capacity() == old(self).spec_capacity(),
            final(self).spec_closed() == old(self).spec_closed(),
            final(self).tap_count() == old(self).tap_count(),
            forall|i: int|
                0 <= i < old(self).tap_count() ==> final(self).tap_pending(i) == old(
                    self,
                ).tap_pending(i),
    {
        if self.queue.len() == 0 {
            None
        } else {
            let f = self.queue.remove(0);
            proof {
                assert(old(self).queue@.remove(0) =~= old(self).queue@.drop_first());
            }
            Some(f)
        }
    }

    /// Mark the source drained: once the queue empties, `pull` keeps
    /// returning `None`.
    pub fn close(&mut self)
        requires
            old(self).wf(),
        ensures
            final(self).wf(),
            final(self).spec_closed(),
            final(self).queued() == old(self).queued(),
            final(self).emitted_timestamps() == old(self).emitted_timestamps(),
            final(self).last_ts() == old(self).last_ts(),
            final(self).spec_id() == old(self).spec_id(),
            final(self).spec_sample_rate() == old(self).spec_sample_rate(),
            final(self).spec_channels() == old(self).spec_channels(),
            final(self).spec_capacity() == old(self).spec_capacity(),
            final(self).tap_count() == old(self).tap_count(),
            forall|i: int|
                0 <= i < old(self).tap_count() ==> final(self).tap_pending(i) == old(
                    self,
                ).tap_pending(i),
    {
        self.closed = true;
    }

    /// Open an additional consumer: the subscriber will see a copy of
    /// every frame the track accepts from now on; it does not see
    /// history.
    pub fn subscribe(&mut self) -> (id: usize)
        requires
            old(self).wf(),
        ensures
            final(self).wf(),
            id == old(self).tap_count(),
            final(self).tap_count() == old(self).tap_count() + 1,
            final(self).tap_pending(id as int) == Seq::<AudioFrame>::empty(),
            forall|i: int|
                0 <= i < old(self).tap_count() ==> final(self).tap_pending(i) == old(
                    self,
                ).tap_pending(i),
            final(self).queued() == old(self).queued(),
            final(self).emitted_timestamps() == old(self).emitted_timestamps(),
            final(self).last_ts() == old(self).last_ts(),
            final(self).spec_id() == old(self).spec_id(),
            final(self).spec_sample_rate() == old(self).spec_sample_rate(),
            final(self).spec_channels() == old(self).spec_channels(),
            final(self).spec_capacity() == old(self).spec_capacity(),
            final(self).spec_closed() == old(self).spec_closed(),
    {
        let id = self.taps.len();
        self.taps.push(Vec::new());
        id
    }

    /// Consume the next frame for a subscriber, oldest first; `None`
    /// when that subscriber has seen everything.
    pub fn pull_tap(&mut self, id: usize) -> (r: Option<AudioFrame>)
        requires
            old(self).wf(),
            id < old(self).tap_count(),
        ensures
            final(self).wf(),
            old(self).tap_pending(id as int).len() == 0 ==> r is None && *final(self) == *old(self),
            old(self).tap_pending(id as int).len() > 0 ==> r == Some(
                old(self).tap_pending(id as int)[0],
            ) && final(self).tap_pending(id as int) == old(self).tap_pending(
                id as int,
            ).drop_first(),
            final(self).tap_count() == old(self).tap_count(),
            forall|i: int|
                0 <= i < old(self).tap_count() && i != id ==> final(self).tap_pending(i) == old(
                    self,
                ).tap_pending(i),
            final(self).queued() == old(self).queued(),
            final(self).emitted_timestamps() == old(self).emitted_timestamps(),
            final(self).last_ts() == old(self).last_ts(),
            final(self).spec_id() == old(self).spec_id(),
            final(self).spec_sample_rate() == old(self).spec_sample_rate(),
            final(self).spec_channels() == old(self).spec_channels(),
            final(self).spec_capacity() == old(self).spec_capacity(),
            final(self).spec_closed() == old(self).spec_closed(),
    {
        if self.taps[id].len() == 0 {
            return None;
        }
        {
            let tap = &mut self.taps[id];
            let f = tap.remove(0);
            proof {
                assert(old(self).taps@[id as int]@.remove(0) =~= old(self).taps@[
                    id as int
                ]@.drop_first());
            }
            Some(f)
        }
    }

}

/// Equality of frames up to storage: same identity text, clock and
/// rate, and payloads that read the same.
pub open spec fn frame_eq(a: AudioFrame, b: AudioFrame) -> bool {
    &&& a.track_id@ == b.track_id@
    &&& a.timestamp == b.timestamp
    &&& a.sample_rate == b.sample_rate
    &&& match (a.samples, b.samples) {
        (crate::Samples::PCM { samples: x }, crate::Samples::PCM { samples: y }) => x@ == y@,
        (
            crate::Samples::RTP { sequence_number: s1, payload_type: p1, payload: d1 },
            crate::Samples::RTP { sequence_number: s2, payload_type: p2, payload: d2 },
        ) => s1 == s2 && p1 == p2 && d1@ == d2@,
        (crate::Samples::Empty, crate::Samples::Empty) => true,
        _ => false,
    }
}

fn copy_pcm(v: &Vec<i16>) -> (r: Vec<i16>)
    ensures
        r@ == v@,
{
    let mut out: Vec<i16> = Vec::new();
    let mut i: usize = 0;
    while i < v.len()
        invariant
            i <= v@.len(),
            out@.len() == i,
            forall|j: int| 0 <= j < i ==> out@[j] == v@[j],
        decreases v@.len() - i,
    {
        out.push(v[i]);
        i = i + 1;
    }
    proof {
        assert(out@ =~= v@);
    }
    out
}

fn copy_bytes(v: &Vec<u8>) -> (r: Vec<u8>)
    ensures
        r@ == v@,
{
    let mut out: Vec<u8> = Vec::new();
    let mut i: usize = 0;
    while i < v.len()
        invariant
            i <= v@.len(),
            out@.len() == i,
            forall|j: int| 0 <= j < i ==> out@[j] == v@[j],
        decreases v@.len() - i,
    {
        out.push(v[i]);
        i = i + 1;
    }
    proof {
        assert(out@ =~= v@);
    }
    out
}

/// Copy a frame so a subscriber can keep it while the track's own
/// queue keeps the original.
fn copy_frame(f: &AudioFrame) -> (r: AudioFrame)
    ensures
        frame_eq(r, *f),
{
    let samples = match &f.samples {
        crate::Samples::PCM { samples } => crate::Samples::PCM { samples: copy_pcm(samples) },
        crate::Samples::RTP { sequence_number, payload_type, payload } => crate::Samples::RTP {
            sequence_number: *sequence_number,
            payload_type: *payload_type,
            payload: copy_bytes(payload),
        },
        crate::Samples::Empty => crate::Samples::Empty,
    };
    AudioFrame {
        track_id: f.track_id.clone(),
        samples,
        timestamp: f.timestamp,
        sample_rate: f.sample_rate,
    }
}

/// Whether subscriber `i` of `t1` received a copy of `frame` on top
/// of what it held in `t0`, dropping its oldest pending copy when it
/// was at the track's bound.
pub open spec fn tap_updated(t0: Track, t1: Track, frame: AudioFrame, i: int) -> bool {
    exists|c: AudioFrame|
        frame_eq(c, frame) && t1.tap_pending(i) == (if t0.tap_pending(i).len()
            < t0.spec_capacity() {
            t0.tap_pending(i).push(c)
        } else {
            t0.tap_pending(i).drop_first().push(c)
        })
}

/// How a track after an attempted push relates to the track before
/// it: a frame with the wrong rate or a non-advancing timestamp is
/// rejected and changes nothing; an accepted frame is recorded on
/// the clock and appended, displacing the oldest queued frame when
/// the queue was full. The track's identity and configuration never
/// change.
pub open spec fn push_relation(
    t0: Track,
    t1: Track,
    frame: AudioFrame,
    r: Result<PushOutcome, TrackError>,
) -> bool {
    &&& (frame.sample_rate != t0.spec_sample_rate() ==> r == Err::<PushOutcome, TrackError>(
        TrackError::SampleRateMismatch,
    ) && t1 == t0)
    &&& (frame.sample_rate == t0.spec_sample_rate() && !clock_advances(
        t0.last_ts(),
        frame.timestamp,
    ) ==> r == Err::<PushOutcome, TrackError>(TrackError::ClockRegression) && t1 == t0)
    &&& (frame.sample_rate == t0.spec_sample_rate() && clock_advances(t0.last_ts(), frame.timestamp)
        ==> {
        &&& t1.emitted_timestamps() == t0.emitted_timestamps().push(frame.timestamp)
        &&& t1.last_ts() == Some(frame.timestamp)
        &&& (t0.queued().len() < t0.spec_capacity() ==> r == Ok::<PushOutcome, TrackError>(
            PushOutcome::Queued,
        ) && t1.queued() == t0.queued().push(frame))
        &&& (t0.queued().len() == t0.spec_capacity() ==> r == Ok::<PushOutcome, TrackError>(
            PushOutcome::DroppedOldest,
        ) && t1.queued() == t0.queued().drop_first().push(frame))
    })
    &&& (frame.sample_rate == t0.spec_sample_rate() && clock_advances(t0.last_ts(), frame.timestamp)
        ==> t1.tap_count() == t0.tap_count() && (forall|i: int|
        0 <= i < t0.tap_count() ==> #[trigger] tap_updated(t0, t1, frame, i)))
    &&& t1.spec_id() == t0.spec_id()
    &&& t1.spec_sample_rate() == t0.spec_sample_rate()
    &&& t1.spec_channels() == t0.spec_channels()
    &&& t1.spec_capacity() == t0.spec_capacity()
    &&& t1.spec_closed() == t0.spec_closed()
}

/// The reading of a clock that may not have started yet: zero before
/// the first frame.
pub open spec fn last_value(last: Option<u64>) -> u64 {
    match last {
        None => 0u64,
        Some(t) => t,
    }
}

/// Whether a new timestamp advances a clock that last read `last`.
pub open spec fn clock_advances(last: Option<u64>, ts: u64) -> bool {
    match last {
        None => true,
        Some(t) => ts > t,
    }
}

/// Law: the timestamps a track has accepted — the frames it emitted to
/// its consumers — form a strictly increasing sequence.
pub proof fn lemma_track_timestamps_strictly_increasing(t: &Track)
    requires
        t.wf(),
    ensures
        strictly_increasing(t.emitted_timestamps()),
{
}

/// Law: every frame a well-formed track holds carries the track's
/// configured sample rate, so every frame leaving it does too.
pub proof fn lemma_track_frames_carry_track_rate(t: &Track)
    requires
        t.wf(),
    ensures
        forall|i: int|
            0 <= i < t.queued().len() ==> (#[trigger] t.queued()[i]).sample_rate
                == t.spec_sample_rate(),
{
}

/// Law: the frames waiting in a well-formed track stand in clock
/// order, so consumers see timestamps in strictly increasing order.
pub proof fn lemma_track_queue_in_clock_order(t: &Track)
    requires
        t.wf(),
    ensures
        forall|i: int, j: int|
            0 <= i < j < t.queued().len() ==> t.queued()[i].timestamp < t.queued()[j].timestamp,
{
}

} // verus!
