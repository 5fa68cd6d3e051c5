//! Realtime voice-agent media library: per-call audio frames, codec
//! adaptation between RTP payloads and linear PCM, track queues with
//! monotonic clocks, and jitter handling for depacketization.

use vstd::prelude::*;

pub mod media;
pub mod session;
pub mod call;
pub mod event;
pub mod track;

verus! {

/// Unique identifier for an audio track in a media session
pub type TrackId = String;

/// Audio sample type (16-bit signed integer)
pub type Sample = i16;

/// Buffer of PCM audio samples
pub type PcmBuf = Vec<Sample>;

/// Buffer for RTP payload data
pub type PayloadBuf = Vec<u8>;

/// Audio sample data in different formats
#[derive(Debug, Clone)]
pub enum Samples {
    /// Raw PCM audio samples
    PCM {
        /// PCM sample buffer
        samples: PcmBuf,
    },
    /// RTP packetized audio data
    RTP {
        /// RTP sequence number
        sequence_number: u16,
        /// RTP payload type
        payload_type: u8,
        /// RTP payload data
        payload: PayloadBuf,
    },
    /// Empty samples (no data): a clock-advancing placeholder, not a gap
    Empty,
}

/// Audio frame containing samples with metadata
#[derive(Debug, Clone)]
pub struct AudioFrame {
    /// Track identifier this frame belongs to
    pub track_id: TrackId,
    /// Audio sample data
    pub samples: Samples,
    /// Timestamp in milliseconds on the track's local clock
    pub timestamp: u64,
    /// Sample rate in Hz (e.g., 8000, 16000, 48000)
    pub sample_rate: u32,
}

impl Samples {
    /// Get the RTP payload type if this is an RTP sample
    ///
    /// # Returns
    /// - `Some(payload_type)` for RTP samples
    /// - `None` for PCM or Empty samples
    pub fn payload_type(&self) -> (r: Option<u8>)
        ensures
            match self {
                Samples::RTP { payload_type, .. } => r == Some(*payload_type),
                _ => r is None,
            },
    {
        match self {
            Samples::RTP { payload_type, .. } => Some(*payload_type),
            _ => None,
        }
    }
}

/// Get current Unix timestamp in milliseconds.
///
/// Relies on `std::time::SystemTime::now` and
/// `SystemTime::duration_since(UNIX_EPOCH)`: the wall clock decides the
/// result, so nothing is promised of it.
///
/// # Panics
/// Panics if system time is before Unix epoch (should never happen on normal systems)
#[verifier::external_body]
pub fn get_timestamp() -> u64 {
    let now = std::time::SystemTime::now();
    now.duration_since(std::time::UNIX_EPOCH)
        .expect("Time went backwards")
        .as_millis() as u64
}

} // verus!
