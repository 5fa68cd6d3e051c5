//! RTP depacketization: the jitter buffer that reorders packets
//! within a bounded window and drops late arrivals.
//!
//! Packets are keyed by their RTP sequence number. The reorder window
//! is configured in milliseconds and translated to packets through
//! the stream's packet time, so a packet more than a window behind
//! the newest arrival — or behind a slot already released — is late
//! and is dropped with the overflow counter stepped.

use vstd::prelude::*;

use crate::AudioFrame;

verus! {

/// Default reorder window in milliseconds.
pub const DEFAULT_JITTER_WINDOW_MS: u64 = 60;

/// Default packet time in milliseconds.
pub const DEFAULT_PTIME_MS: u64 = 20;

/// Smallest reorder window the adaptation may reach.
pub const MIN_JITTER_WINDOW_MS: u64 = 20;

/// Largest reorder window the adaptation may reach.
pub const MAX_JITTER_WINDOW_MS: u64 = 200;

/// One step of the inter-arrival jitter estimate: an exponentially
/// weighted moving average that moves an eighth of the way toward
/// each observed deviation.
pub open spec fn ewma_step(est: u64, deviation: u64) -> u64 {
    if deviation >= est {
        (est + (deviation - est) / 8) as u64
    } else {
        (est - (est - deviation) / 8) as u64
    }
}

/// The reorder window an estimate asks for, clamped to its bounds.
pub open spec fn clamped_window(est: u64) -> u64 {
    if est < MIN_JITTER_WINDOW_MS {
        MIN_JITTER_WINDOW_MS
    } else if est > MAX_JITTER_WINDOW_MS {
        MAX_JITTER_WINDOW_MS
    } else {
        est
    }
}

/// What became of a delivered packet.
#[derive(Debug, Clone, Copy, PartialEq, Eq, Structural)]
pub enum JitterPush {
    /// Held for in-order release.
    Buffered,
    /// Behind the window or behind a released slot: dropped, and the
    /// overflow counter stepped.
    DroppedLate,
    /// A sequence number already buffered: dropped silently.
    DroppedDuplicate,
}

/// The value under an optional sequence number, zero when absent.
pub open spec fn seqno_value(o: Option<u16>) -> u16 {
    match o {
        None => 0u16,
        Some(s) => s,
    }
}

/// The higher of an optional sequence number and a new one.
pub open spec fn seqno_max(o: Option<u16>, s: u16) -> u16 {
    match o {
        None => s,
        Some(h) => if s > h {
            s
        } else {
            h
        },
    }
}

/// A sequence of RTP sequence numbers in strictly increasing order.
pub open spec fn seqnos_strictly_increasing(s: Seq<u16>) -> bool {
    forall|i: int, j: int| 0 <= i < j < s.len() ==> s[i] < s[j]
}

/// Reorder buffer for one RTP stream.
pub struct JitterBuffer {
    window_ms: u64,
    ptime_ms: u64,
    jitter_est_ms: u64,
    buf: Vec<(u16, AudioFrame)>,
    highest: Option<u16>,
    last_released: Option<u16>,
    overflow_drops: u64,
    released: Ghost<Seq<u16>>,
}

impl JitterBuffer {
    /// The packets held for release, in sequence order.
    pub closed spec fn buffered(&self) -> Seq<(u16, AudioFrame)> {
        self.buf@
    }

    /// The sequence numbers released so far, in release order.
    pub closed spec fn released_seqnos(&self) -> Seq<u16> {
        self.released@
    }

    /// The last released sequence number, if any.
    pub closed spec fn last_released_seqno(&self) -> Option<u16> {
        self.last_released
    }

    /// The highest sequence number accepted so far, if any.
    pub closed spec fn highest_seqno(&self) -> Option<u16> {
        self.highest
    }

    /// Count of packets dropped as late (`JitterOverflow`).
    pub closed spec fn spec_overflow_count(&self) -> u64 {
        self.overflow_drops
    }

    /// The reorder window, in milliseconds.
    pub closed spec fn spec_window_ms(&self) -> u64 {
        self.window_ms
    }

    /// The stream's packet time, in milliseconds.
    pub closed spec fn spec_ptime_ms(&self) -> u64 {
        self.ptime_ms
    }

    /// The inter-arrival jitter estimate, in milliseconds.
    pub closed spec fn spec_jitter_estimate(&self) -> u64 {
        self.jitter_est_ms
    }

    /// The reorder window, in packets.
    pub closed spec fn window_packets(&self) -> int {
        self.window_ms as int / self.ptime_ms as int
    }

    /// Whether a sequence number is currently buffered.
    pub open spec fn holds_seqno(&self, seq: u16) -> bool {
        exists|i: int| 0 <= i < self.buffered().len() && (#[trigger] self.buffered()[i]).0 == seq
    }

    /// Whether a delivered sequence number is late: at or behind a
    /// slot already released, or more than the reorder window behind
    /// the newest accepted packet.
    pub open spec fn is_late(&self, seq: u16) -> bool {
        ||| (self.last_released_seqno() matches Some(lr) && seq <= lr)
        ||| (self.highest_seqno() matches Some(h) && seq < h && h - seq > self.window_packets())
    }

    /// Well-formedness: buffered packets are sorted by sequence
    /// number without duplicates, all ahead of everything released,
    /// and releases happened in sequence order.
    pub closed spec fn wf(&self) -> bool {
        &&& self.ptime_ms >= 1
        &&& seqnos_strictly_increasing(self.released@)
        &&& (self.last_released is None <==> self.released@.len() == 0)
        &&& (self.last_released matches Some(t) ==> self.released@.len() > 0 && self.released@.last() == t)
        &&& (forall|i: int, j: int|
            0 <= i < j < self.buf@.len() ==> (#[trigger] self.buf@[i]).0 < (
            #[trigger] self.buf@[j]).0)
        &&& (forall|i: int|
            0 <= i < self.buf@.len() ==> self.last_released is Some ==> (
            #[trigger] self.buf@[i]).0 > seqno_value(self.last_released))
        &&& (self.buf@.len() > 0 ==> self.highest is Some)
        &&& (forall|i: int|
            0 <= i < self.buf@.len() ==> (#[trigger] self.buf@[i]).0 <= seqno_value(self.highest))
    }

    /// Create an empty jitter buffer with the given reorder window
    /// and packet time.
    pub fn new(window_ms: u64, ptime_ms: u64) -> (jb: JitterBuffer)
        requires
            ptime_ms >= 1,
        ensures
            jb.wf(),
            jb.buffered() == Seq::<(u16, AudioFrame)>::empty(),
            jb.released_seqnos() == Seq::<u16>::empty(),
            jb.last_released_seqno() is None,
            jb.highest_seqno() is None,
            jb.spec_overflow_count() == 0,
            jb.spec_window_ms() == window_ms,
            jb.spec_ptime_ms() == ptime_ms,
            jb.spec_jitter_estimate() == window_ms,
            jb.window_packets() == window_ms as int / ptime_ms as int,
    {
        let jb = JitterBuffer {
            window_ms,
            ptime_ms,
            jitter_est_ms: window_ms,
            buf: Vec::new(),
            highest: None,
            last_released: None,
            overflow_drops: 0,
            released: Ghost(Seq::empty()),
        };
        proof {
            assert(jb.buffered() =~= Seq::<(u16, AudioFrame)>::empty());
            assert(jb.released_seqnos() =~= Seq::<u16>::empty());
        }
        jb
    }

    /// Number of packets waiting for release.
    pub fn len(&self) -> (n: usize)
        ensures
            n == self.buffered().len(),
    {
        self.buf.len()
    }

    /// The reorder window now in force, in milliseconds.
    pub fn window_ms(&self) -> (r: u64)
        ensures
            r == self.spec_window_ms(),
    {
        self.window_ms
    }

    /// The inter-arrival jitter estimate, in milliseconds.
    pub fn jitter_estimate(&self) -> (r: u64)
        ensures
            r == self.spec_jitter_estimate(),
    {
        self.jitter_est_ms
    }

    /// Count of packets dropped as late (`JitterOverflow`).
    pub fn overflow_count(&self) -> (n: u64)
        ensures
            n == self.spec_overflow_count(),
    {
        self.overflow_drops
    }

    /// Observe the deviation of one packet's inter-arrival time from
    /// the packet time and adapt the reorder window: the jitter
    /// estimate moves an eighth of the way toward the observation,
    /// and the window follows the estimate within its bounds.
    pub fn observe_interarrival(&mut self, deviation_ms: u64)
        requires
            old(self).wf(),
        ensures
            final(self).wf(),
            final(self).spec_jitter_estimate() == ewma_step(
                old(self).spec_jitter_estimate(),
                deviation_ms,
            ),
            final(self).spec_window_ms() == clamped_window(final(self).spec_jitter_estimate()),
            final(self).spec_ptime_ms() == old(self).spec_ptime_ms(),
            final(self).window_packets() == final(self).spec_window_ms() as int / final(self).spec_ptime_ms() as int,
            final(self).buffered() == old(self).buffered(),
            final(self).released_seqnos() == old(self).released_seqnos(),
            final(self).last_released_seqno() == old(self).last_released_seqno(),
            final(self).highest_seqno() == old(self).highest_seqno(),
            final(self).spec_overflow_count() == old(self).spec_overflow_count(),
    {
        let est = self.jitter_est_ms;
        let new_est: u64 = if deviation_ms >= est {
            est + (deviation_ms - est) / 8
        } else {
            est - (est - deviation_ms) / 8
        };
        self.jitter_est_ms = new_est;
        self.window_ms = if new_est < MIN_JITTER_WINDOW_MS {
            MIN_JITTER_WINDOW_MS
        } else if new_est > MAX_JITTER_WINDOW_MS {
            MAX_JITTER_WINDOW_MS
        } else {
            new_est
        };
    }

    /// Deliver one packet.
    ///
    /// A late packet is dropped and counted; a duplicate of a
    /// buffered packet is dropped silently; anything else is held at
    /// its place in sequence order.
    pub fn push(&mut self, seq: u16, frame: AudioFrame) -> (r: JitterPush)
        requires
            old(self).wf(),
            old(self).spec_overflow_count() < u64::MAX,
        ensures
            final(self).wf(),
            old(self).is_late(seq) ==> r == JitterPush::DroppedLate && final(self).buffered() == old(
                self,
            ).buffered() && final(self).spec_overflow_count() == old(self).spec_overflow_count()
                + 1 && final(self).highest_seqno() == old(self).highest_seqno(),
            !old(self).is_late(seq) && old(self).holds_seqno(seq) ==> r
                == JitterPush::DroppedDuplicate && *final(self) == *old(self),
            !old(self).is_late(seq) && !old(self).holds_seqno(seq) ==> r == JitterPush::Buffered && (
            exists|k: int|
                0 <= k <= old(self).buffered().len() && final(self).buffered() == old(
                    self,
                ).buffered().insert(k, (seq, frame)) && (forall|i: int|
                    0 <= i < k ==> (#[trigger] old(self).buffered()[i]).0 < seq) && (forall|i: int|
                    k <= i < old(self).buffered().len() ==> (#[trigger] old(self).buffered()[i]).0
                        > seq)) && final(self).spec_overflow_count() == old(
                self,
            ).spec_overflow_count() && final(self).highest_seqno() == Some(
                seqno_max(old(self).highest_seqno(), seq),
            ),
            final(self).released_seqnos() == old(self).released_seqnos(),
            final(self).last_released_seqno() == old(self).last_released_seqno(),
            final(self).window_packets() == old(self).window_packets(),
    {
        let late: bool = match (self.last_released, self.highest) {
            (Some(lr), _) if seq <= lr => true,
            (_, Some(h)) => {
                if seq < h {
                    let gap: u64 = (h - seq) as u64;
                    gap > self.window_ms / self.ptime_ms
                } else {
                    false
                }
            },
            _ => false,
        };
        proof {
            assert(late == self.is_late(seq));
        }
        if late {
            self.overflow_drops = self.overflow_drops + 1;
            return JitterPush::DroppedLate;
        }
        let mut k: usize = 0;
        while k < self.buf.len() && self.buf[k].0 < seq
            invariant
                0 <= k <= self.buf@.len(),
                forall|i: int| 0 <= i < k ==> (#[trigger] self.buf@[i]).0 < seq,
            decreases self.buf@.len() - k,
        {
            k = k + 1;
        }
        if k < self.buf.len() && self.buf[k].0 == seq {
            proof {
                assert((self.buffered()[k as int]).0 == seq);
                assert(self.holds_seqno(seq));
            }
            return JitterPush::DroppedDuplicate;
        }
        proof {
            assert(forall|i: int|
                k <= i < self.buf@.len() ==> (#[trigger] self.buf@[i]).0 > seq) by {
                assert(forall|i: int|
                    k < i < self.buf@.len() ==> (#[trigger] self.buf@[i]).0 >= (self.buf@[k as int]).0);
            }
            assert(!self.holds_seqno(seq));
        }
        let ghost b0 = self.buf@;
        let ghost ki = k as int;
        proof {
            b0.insert_ensures(ki, (seq, frame));
        }
        self.buf.insert(k, (seq, frame));
        let new_highest: u16 = match self.highest {
            None => seq,
            Some(h) => {
                if seq > h {
                    seq
                } else {
                    h
                }
            },
        };
        self.highest = Some(new_highest);
        proof {
            assert(self.buf@ == b0.insert(ki, (seq, frame)));
            assert forall|i: int, j: int| 0 <= i < j < self.buf@.len() implies (
            #[trigger] self.buf@[i]).0 < (#[trigger] self.buf@[j]).0 by {
                if i < ki {
                    assert(self.buf@[i] == b0[i]);
                } else if i > ki {
                    assert(self.buf@[i] == b0[i - 1]);
                }
                if j < ki {
                    assert(self.buf@[j] == b0[j]);
                } else if j > ki {
                    assert(self.buf@[j] == b0[j - 1]);
                }
            }
            assert forall|i: int| 0 <= i < self.buf@.len() implies (#[trigger] self.buf@[i]).0
                <= seqno_value(self.highest) by {
                if i < ki {
                    assert(self.buf@[i] == b0[i]);
                } else if i > ki {
                    assert(self.buf@[i] == b0[i - 1]);
                }
            }
            assert forall|i: int|
                0 <= i < self.buf@.len() implies self.last_released is Some ==> (
            #[trigger] self.buf@[i]).0 > seqno_value(self.last_released) by {
                if i < ki {
                    assert(self.buf@[i] == b0[i]);
                } else if i > ki {
                    assert(self.buf@[i] == b0[i - 1]);
                }
            }
            assert(0 <= ki <= old(self).buffered().len());
            assert(self.buffered() == old(self).buffered().insert(ki, (seq, frame)));
            assert(forall|i: int| 0 <= i < ki ==> (#[trigger] old(self).buffered()[i]).0 < seq);
            assert(forall|i: int|
                ki <= i < old(self).buffered().len() ==> (#[trigger] old(self).buffered()[i]).0
                    > seq);
            assert(exists|k: int|
                0 <= k <= old(self).buffered().len() && self.buffered() == old(
                    self,
                ).buffered().insert(k, (seq, frame)) && (forall|i: int|
                    0 <= i < k ==> (#[trigger] old(self).buffered()[i]).0 < seq) && (forall|i: int|
                    k <= i < old(self).buffered().len() ==> (#[trigger] old(self).buffered()[i]).0
                        > seq));
            assert(self.highest == Some(seqno_max(old(self).highest, seq)));
        }
        JitterPush::Buffered
    }

    /// Release the next packet in sequence order; `None` when the
    /// buffer is empty.
    pub fn pop(&mut self) -> (r: Option<(u16, AudioFrame)>)
        requires
            old(self).wf(),
        ensures
            final(self).wf(),
            old(self).buffered().len() == 0 ==> r is None && *final(self) == *old(self),
            old(self).buffered().len() > 0 ==> {
                &&& r == Some(old(self).buffered()[0])
                &&& final(self).buffered() == old(self).buffered().drop_first()
                &&& final(self).last_released_seqno() == Some(old(self).buffered()[0].0)
                &&& final(self).released_seqnos() == old(self).released_seqnos().push(
                    old(self).buffered()[0].0,
                )
            },
            final(self).spec_overflow_count() == old(self).spec_overflow_count(),
            final(self).highest_seqno() == old(self).highest_seqno(),
            final(self).window_packets() == old(self).window_packets(),
    {
        if self.buf.len() == 0 {
            None
        } else {
            let entry = self.buf.remove(0);
            proof {
                assert(old(self).buf@.remove(0) =~= old(self).buf@.drop_first());
            }
            self.last_released = Some(entry.0);
            proof {
                self.released@ = self.released@.push(entry.0);
            }
            Some(entry)
        }
    }
}

/// Law: depacketized output leaves the jitter buffer in producer
/// order — the released sequence numbers are strictly increasing, so
/// packets reordered within the window come out in their original
/// order and anything that would break that order is dropped.
pub proof fn lemma_jitter_release_order(jb: &JitterBuffer)
    requires
        jb.wf(),
    ensures
        seqnos_strictly_increasing(jb.released_seqnos()),
{
}

/// Law: the buffer holds its packets sorted by sequence number
/// without duplicates, and every buffered packet is ahead of
/// everything already released — so the next release is always the
/// lowest buffered sequence number.
pub proof fn lemma_jitter_buffered_sorted(jb: &JitterBuffer)
    requires
        jb.wf(),
    ensures
        forall|i: int, j: int|
            0 <= i < j < jb.buffered().len() ==> (#[trigger] jb.buffered()[i]).0 < (
            #[trigger] jb.buffered()[j]).0,
        forall|i: int|
            0 <= i < jb.buffered().len() ==> (jb.last_released_seqno() matches Some(lr) ==> (
            #[trigger] jb.buffered()[i]).0 > lr),
{
    assert forall|i: int|
        0 <= i < jb.buffered().len() implies (jb.last_released_seqno() matches Some(lr) ==> (
    #[trigger] jb.buffered()[i]).0 > lr) by {
        if jb.last_released_seqno() is Some {
            assert(jb.buffered()[i].0 > seqno_value(jb.last_released_seqno()));
        }
    }
}

/// A parsed RTP fixed header.
#[derive(Debug, Clone, Copy, PartialEq, Eq, Structural)]
pub struct RtpHeader {
    /// Protocol version; only 2 is accepted.
    pub version: u8,
    /// Padding flag.
    pub padding: bool,
    /// Extension flag.
    pub extension: bool,
    /// Number of contributing-source identifiers after the fixed part.
    pub csrc_count: u8,
    /// Marker bit.
    pub marker: bool,
    /// Negotiated payload type.
    pub payload_type: u8,
    /// Sequence number, network order.
    pub sequence_number: u16,
    /// Media timestamp in the codec clock rate.
    pub timestamp: u32,
    /// Synchronization source, fixed per session.
    pub ssrc: u32,
}

/// The fixed RTP header is twelve bytes.
pub const RTP_FIXED_HEADER_LEN: usize = 12;

/// Whether a buffer opens with a well-formed version-2 RTP header:
/// long enough for the fixed part and its contributing-source list.
pub open spec fn rtp_header_valid(b: Seq<u8>) -> bool {
    &&& b.len() >= 12
    &&& b[0] / 64 == 2
    &&& b.len() >= 12 + 4 * ((b[0] % 16) as int)
}

/// The header fields read from a valid buffer.
pub open spec fn rtp_header_of(b: Seq<u8>) -> RtpHeader {
    RtpHeader {
        version: (b[0] / 64) as u8,
        padding: b[0] / 32 % 2 == 1,
        extension: b[0] / 16 % 2 == 1,
        csrc_count: (b[0] % 16) as u8,
        marker: b[1] / 128 == 1,
        payload_type: (b[1] % 128) as u8,
        sequence_number: (b[2] * 256 + b[3]) as u16,
        timestamp: (b[4] * 0x1000000 + b[5] * 0x10000 + b[6] * 0x100 + b[7]) as u32,
        ssrc: (b[8] * 0x1000000 + b[9] * 0x10000 + b[10] * 0x100 + b[11]) as u32,
    }
}

/// Where the payload begins in a valid packet: after the fixed header
/// and the contributing-source list.
pub open spec fn rtp_payload_offset(b: Seq<u8>) -> int {
    12 + 4 * ((b[0] % 16) as int)
}

/// Parse the fixed RTP header of a packet: depacketization step one.
/// Rejects anything but version 2, and anything too short for its
/// own header.
pub fn parse_rtp_header(packet: &[u8]) -> (r: Option<(RtpHeader, usize)>)
    ensures
        r is Some <==> rtp_header_valid(packet@),
        r matches Some(p) ==> p.0 == rtp_header_of(packet@) && p.1 == rtp_payload_offset(packet@),
{
    if packet.len() < RTP_FIXED_HEADER_LEN {
        return None;
    }
    let b0 = packet[0];
    let version: u8 = b0 / 64;
    if version != 2 {
        return None;
    }
    let csrc_count: u8 = b0 % 16;
    let offset: usize = RTP_FIXED_HEADER_LEN + 4 * (csrc_count as usize);
    if packet.len() < offset {
        return None;
    }
    let b1 = packet[1];
    let header = RtpHeader {
        version,
        padding: b0 / 32 % 2 == 1,
        extension: b0 / 16 % 2 == 1,
        csrc_count,
        marker: b1 / 128 == 1,
        payload_type: b1 % 128,
        sequence_number: (packet[2] as u16) * 256 + (packet[3] as u16),
        timestamp: (packet[4] as u32) * 0x1000000 + (packet[5] as u32) * 0x10000 + (
        packet[6] as u32) * 0x100 + (packet[7] as u32),
        ssrc: (packet[8] as u32) * 0x1000000 + (packet[9] as u32) * 0x10000 + (packet[10] as u32)
            * 0x100 + (packet[11] as u32),
    };
    Some((header, offset))
}

/// A parsed telephone-event (DTMF) payload.
#[derive(Debug, Clone, Copy, PartialEq, Eq, Structural)]
pub struct DtmfEvent {
    /// Event code: 0-9 the digits, 10 `*`, 11 `#`, 12-15 `A`-`D`.
    pub event: u8,
    /// Whether this packet ends the event.
    pub end_of_event: bool,
    /// Attenuation in dBm0, 0-63.
    pub volume: u8,
    /// Event duration so far, in timestamp units.
    pub duration: u16,
}

/// The DTMF fields read from a four-byte telephone-event payload.
pub open spec fn dtmf_of(b: Seq<u8>) -> DtmfEvent {
    DtmfEvent {
        event: b[0],
        end_of_event: b[1] / 128 == 1,
        volume: (b[1] % 64) as u8,
        duration: (b[2] * 256 + b[3]) as u16,
    }
}

/// Parse a telephone-event payload, as carried on the distinct DTMF
/// payload type; surfaced as an event, never played back.
pub fn parse_dtmf(payload: &[u8]) -> (r: Option<DtmfEvent>)
    ensures
        r is Some <==> payload@.len() >= 4,
        r matches Some(d) ==> d == dtmf_of(payload@),
{
    if payload.len() < 4 {
        return None;
    }
    Some(
        DtmfEvent {
            event: payload[0],
            end_of_event: payload[1] / 128 == 1,
            volume: payload[1] % 64,
            duration: (payload[2] as u16) * 256 + (payload[3] as u16),
        },
    )
}

/// The digit a DTMF event code names, if it names one.
pub open spec fn spec_dtmf_digit(event: u8) -> Option<char> {
    if event <= 9 {
        Some((event + 48) as char)
    } else if event == 10 {
        Some('*')
    } else if event == 11 {
        Some('#')
    } else if event <= 15 {
        Some((event - 12 + 65) as char)
    } else {
        None
    }
}

/// Map a DTMF event code to its digit: 0-9, `*`, `#`, `A`-`D`.
pub fn dtmf_digit(event: u8) -> (r: Option<char>)
    ensures
        r == spec_dtmf_digit(event),
{
    match event {
        0 => Some('0'),
        1 => Some('1'),
        2 => Some('2'),
        3 => Some('3'),
        4 => Some('4'),
        5 => Some('5'),
        6 => Some('6'),
        7 => Some('7'),
        8 => Some('8'),
        9 => Some('9'),
        10 => Some('*'),
        11 => Some('#'),
        12 => Some('A'),
        13 => Some('B'),
        14 => Some('C'),
        15 => Some('D'),
        _ => None,
    }
}

/// Packetizer for one outbound RTP stream: accumulates PCM and cuts
/// packets of the codec's packet time, with monotonically increasing
/// sequence numbers and media timestamps stamped in the codec clock
/// rate. The synchronization source is fixed per session.
pub struct Packetizer {
    payload_type: u8,
    ssrc: u32,
    samples_per_packet: usize,
    next_seq: u16,
    next_timestamp: u32,
    acc: Vec<i16>,
}

/// An outbound packet cut by the packetizer: its RTP numbering and
/// the PCM that goes to the encoder.
pub struct OutboundPacket {
    /// Sequence number to stamp.
    pub sequence_number: u16,
    /// Media timestamp to stamp, in codec clock units.
    pub timestamp: u32,
    /// Negotiated payload type.
    pub payload_type: u8,
    /// The session's synchronization source.
    pub ssrc: u32,
    /// One packet time of PCM.
    pub samples: Vec<i16>,
}

impl Packetizer {
    /// PCM accumulated and not yet cut into a packet.
    pub closed spec fn accumulated(&self) -> Seq<i16> {
        self.acc@
    }

    /// The sequence number the next packet will carry.
    pub closed spec fn spec_next_seq(&self) -> u16 {
        self.next_seq
    }

    /// The media timestamp the next packet will carry.
    pub closed spec fn spec_next_timestamp(&self) -> u32 {
        self.next_timestamp
    }

    /// Samples per packet: the codec's packet time at its clock rate.
    pub closed spec fn spec_samples_per_packet(&self) -> usize {
        self.samples_per_packet
    }

    /// Well-formedness: a packet holds at least one sample and fits
    /// the timestamp field's width.
    pub closed spec fn wf(&self) -> bool {
        1 <= self.samples_per_packet <= u32::MAX
    }

    /// Create a packetizer for a stream with the given payload type,
    /// synchronization source, and packet size in samples.
    pub fn new(payload_type: u8, ssrc: u32, samples_per_packet: usize) -> (p: Packetizer)
        requires
            1 <= samples_per_packet <= u32::MAX,
        ensures
            p.wf(),
            p.accumulated() == Seq::<i16>::empty(),
            p.spec_next_seq() == 0,
            p.spec_next_timestamp() == 0,
            p.spec_samples_per_packet() == samples_per_packet,
    {
        let p = Packetizer {
            payload_type,
            ssrc,
            samples_per_packet,
            next_seq: 0,
            next_timestamp: 0,
            acc: Vec::new(),
        };
        proof {
            assert(p.accumulated() =~= Seq::<i16>::empty());
        }
        p
    }

    /// Feed PCM into the accumulator.
    pub fn accumulate(&mut self, pcm: &[i16])
        requires
            old(self).wf(),
            old(self).accumulated().len() + pcm@.len() <= usize::MAX,
        ensures
            final(self).wf(),
            final(self).accumulated() == old(self).accumulated() + pcm@,
            final(self).spec_next_seq() == old(self).spec_next_seq(),
            final(self).spec_next_timestamp() == old(self).spec_next_timestamp(),
            final(self).spec_samples_per_packet() == old(self).spec_samples_per_packet(),
    {
        let mut i: usize = 0;
        let ghost a0 = self.acc@;
        while i < pcm.len()
            invariant
                i <= pcm@.len(),
                self.acc@ == a0 + pcm@.subrange(0, i as int),
                a0.len() + pcm@.len() <= usize::MAX,
                self.samples_per_packet == old(self).samples_per_packet,
                self.next_seq == old(self).next_seq,
                self.next_timestamp == old(self).next_timestamp,
            decreases pcm@.len() - i,
        {
            self.acc.push(pcm[i]);
            i = i + 1;
            proof {
                assert(self.acc@ =~= a0 + pcm@.subrange(0, i as int));
            }
        }
        proof {
            assert(pcm@.subrange(0, pcm@.len() as int) =~= pcm@);
        }
    }

    /// Whether a full packet time of PCM is waiting.
    pub fn ready(&self) -> (b: bool)
        ensures
            b == (self.accumulated().len() >= self.spec_samples_per_packet()),
    {
        self.acc.len() >= self.samples_per_packet
    }

    /// Cut the next packet when a full packet time has accumulated:
    /// the oldest packet time of PCM leaves with the stream's next
    /// sequence number and timestamp; both advance, the sequence
    /// number by one and the timestamp by the packet's samples, each
    /// wrapping in its field width.
    pub fn next_packet(&mut self) -> (r: Option<OutboundPacket>)
        requires
            old(self).wf(),
        ensures
            final(self).wf(),
            final(self).spec_samples_per_packet() == old(self).spec_samples_per_packet(),
            old(self).accumulated().len() < old(self).spec_samples_per_packet() ==> r is None
                && *final(self) == *old(self),
            old(self).accumulated().len() >= old(self).spec_samples_per_packet() ==> (r matches
                Some(p) && {
                let n = old(self).spec_samples_per_packet() as int;
                &&& p.sequence_number == old(self).spec_next_seq()
                &&& p.timestamp == old(self).spec_next_timestamp()
                &&& p.samples@ == old(self).accumulated().subrange(0, n)
                &&& final(self).accumulated() == old(self).accumulated().skip(n)
                &&& final(self).spec_next_seq() == ((old(self).spec_next_seq() + 1) % 0x10000) as u16
                &&& final(self).spec_next_timestamp() == ((old(self).spec_next_timestamp() + n)
                    % 0x100000000) as u32
            }),
    {
        if self.acc.len() < self.samples_per_packet {
            return None;
        }
        let n = self.samples_per_packet;
        let mut samples: Vec<i16> = Vec::new();
        let mut i: usize = 0;
        while i < n
            invariant
                i <= n,
                n <= self.acc@.len(),
                samples@.len() == i,
                forall|j: int| 0 <= j < i ==> samples@[j] == self.acc@[j],
            decreases n - i,
        {
            samples.push(self.acc[i]);
            i = i + 1;
        }
        let mut rest: Vec<i16> = Vec::new();
        let mut k: usize = n;
        while k < self.acc.len()
            invariant
                n <= k <= self.acc@.len(),
                rest@.len() == k - n,
                forall|j: int| 0 <= j < k - n ==> rest@[j] == self.acc@[j + n],
            decreases self.acc@.len() - k,
        {
            rest.push(self.acc[k]);
            k = k + 1;
        }
        let seq = self.next_seq;
        let ts = self.next_timestamp;
        let packet = OutboundPacket {
            sequence_number: seq,
            timestamp: ts,
            payload_type: self.payload_type,
            ssrc: self.ssrc,
            samples,
        };
        proof {
            assert(packet.samples@ =~= old(self).acc@.subrange(
                0,
                old(self).samples_per_packet as int,
            ));
            assert(rest@ =~= old(self).acc@.skip(old(self).samples_per_packet as int));
        }
        self.acc = rest;
        self.next_seq = if seq == 0xFFFF {
            0
        } else {
            seq + 1
        };
        let room: u32 = u32::MAX - ts;
        let nn: u32 = n as u32;
        self.next_timestamp = if nn <= room {
            ts + nn
        } else {
            nn - room - 1
        };
        proof {
            assert(self.next_seq as int == (old(self).next_seq + 1) % 0x10000);
            assert(self.next_timestamp as int == (old(self).next_timestamp
                + old(self).samples_per_packet) % 0x100000000);
        }
        Some(packet)
    }
}

/// Most consecutive missing packets concealed before the stream
/// resynchronizes.
pub const MAX_PLC_GAP: u16 = 16;

/// What depacketization does about a sequence-number discontinuity.
#[derive(Debug, Clone, Copy, PartialEq, Eq, Structural)]
pub enum GapAction {
    /// No packets are missing.
    Contiguous,
    /// This many packets are missing: request loss concealment with
    /// one zero-length decode per missing slot.
    Conceal { missing: u16 },
    /// The gap is too wide (or the count wrapped): resynchronize to
    /// the new sequence number.
    Resync,
}

/// The action for releasing `next` after `last`: nothing for the
/// successor, concealment for a bounded gap, a resync beyond it.
pub open spec fn spec_gap_action(last: Option<u16>, next: u16) -> GapAction {
    match last {
        None => GapAction::Contiguous,
        Some(lr) => if next == lr + 1 {
            GapAction::Contiguous
        } else if next > lr && next - lr - 1 <= MAX_PLC_GAP {
            GapAction::Conceal { missing: (next - lr - 1) as u16 }
        } else {
            GapAction::Resync
        },
    }
}

/// Decide how to handle the discontinuity between the last released
/// sequence number and the next one to release.
pub fn gap_action(last: Option<u16>, next: u16) -> (r: GapAction)
    ensures
        r == spec_gap_action(last, next),
{
    match last {
        None => GapAction::Contiguous,
        Some(lr) => {
            if lr < u16::MAX && next == lr + 1 {
                GapAction::Contiguous
            } else if next > lr && next - lr - 1 <= MAX_PLC_GAP {
                GapAction::Conceal { missing: next - lr - 1 }
            } else {
                GapAction::Resync
            }
        },
    }
}

} // verus!



