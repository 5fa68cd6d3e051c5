//! Per-call control: the lifecycle state machine, the turn and
//! barge-in coordinator's decisions, and the provider retry policy.
//!
//! The decisions are pure functions from state and observed event to
//! next state and action; the runtime that performs I/O drives them
//! and carries out the actions they call for.

use vstd::prelude::*;

verus! {

/// Voiced input must exceed the barge-in threshold for this long
/// before playback is interrupted.
pub const BARGE_IN_MIN_VOICED_MS: u64 = 200;

/// A cancelled provider must stop producing within this long before
/// its output track is closed and late frames are ignored.
pub const CANCEL_GRACE_MS: u64 = 250;

/// Base wait before retrying an unavailable provider.
pub const RETRY_BASE_MS: u64 = 100;

/// Most attempts made per turn against an unavailable provider.
pub const RETRY_MAX_ATTEMPTS: u32 = 3;

/// Lifecycle state of one call.
#[derive(Debug, Clone, Copy, PartialEq, Eq, Structural)]
pub enum CallState {
    /// Created, not yet accepted.
    Init,
    /// Accepted and ringing.
    Ringing,
    /// Answered; the turn loop runs here.
    Established,
    /// Tearing down; resources release deterministically.
    Terminating,
    /// All tracks released, records flushed, observers notified.
    Closed,
}

/// Signal driving the call lifecycle.
#[derive(Debug, Clone, Copy, PartialEq, Eq, Structural)]
pub enum CallSignal {
    /// The signalling layer accepted the call.
    Accept,
    /// The peer answered.
    Answered,
    /// The call was rejected locally.
    Reject,
    /// Setup timed out.
    Timeout,
    /// Local hangup.
    Hangup,
    /// The peer hung up.
    PeerBye,
    /// Teardown finished.
    TeardownComplete,
}

/// The lifecycle transition relation: the one next state for a state
/// and signal; a signal that has no edge from the state leaves it
/// unchanged.
pub open spec fn spec_call_transition(s: CallState, sig: CallSignal) -> CallState {
    match (s, sig) {
        (CallState::Init, CallSignal::Accept) => CallState::Ringing,
        (CallState::Init, CallSignal::Reject) => CallState::Terminating,
        (CallState::Init, CallSignal::Timeout) => CallState::Terminating,
        (CallState::Ringing, CallSignal::Answered) => CallState::Established,
        (CallState::Ringing, CallSignal::Reject) => CallState::Terminating,
        (CallState::Ringing, CallSignal::Timeout) => CallState::Terminating,
        (CallState::Established, CallSignal::Hangup) => CallState::Terminating,
        (CallState::Established, CallSignal::PeerBye) => CallState::Terminating,
        (CallState::Established, CallSignal::Reject) => CallState::Terminating,
        (CallState::Established, CallSignal::Timeout) => CallState::Terminating,
        (CallState::Terminating, CallSignal::TeardownComplete) => CallState::Closed,
        (_, _) => s,
    }
}

/// Step the call lifecycle.
pub fn call_transition(s: CallState, sig: CallSignal) -> (r: CallState)
    ensures
        r == spec_call_transition(s, sig),
{
    match (s, sig) {
        (CallState::Init, CallSignal::Accept) => CallState::Ringing,
        (CallState::Init, CallSignal::Reject) => CallState::Terminating,
        (CallState::Init, CallSignal::Timeout) => CallState::Terminating,
        (CallState::Ringing, CallSignal::Answered) => CallState::Established,
        (CallState::Ringing, CallSignal::Reject) => CallState::Terminating,
        (CallState::Ringing, CallSignal::Timeout) => CallState::Terminating,
        (CallState::Established, CallSignal::Hangup) => CallState::Terminating,
        (CallState::Established, CallSignal::PeerBye) => CallState::Terminating,
        (CallState::Established, CallSignal::Reject) => CallState::Terminating,
        (CallState::Established, CallSignal::Timeout) => CallState::Terminating,
        (CallState::Terminating, CallSignal::TeardownComplete) => CallState::Closed,
        (_, _) => s,
    }
}

/// Law: `Closed` is terminal — no signal leaves it, so release and
/// notification happen once.
pub proof fn lemma_closed_is_terminal(sig: CallSignal)
    ensures
        spec_call_transition(CallState::Closed, sig) == CallState::Closed,
{
}

/// Conversational substate while the call is established.
#[derive(Debug, Clone, Copy, PartialEq, Eq, Structural)]
pub enum TurnPhase {
    /// Forwarding recognizer output; awaiting a final transcript.
    Listening,
    /// Streaming the language model's reply through synthesis into
    /// playback.
    Speaking,
}

/// What the coordinator asks the runtime to do after a decision.
#[derive(Debug, Clone, Copy, PartialEq, Eq, Structural)]
pub struct TurnDecision {
    /// The phase to continue in.
    pub phase: TurnPhase,
    /// Submit the final transcript to the language model and begin
    /// synthesis.
    pub submit_to_llm: bool,
    /// Cancel the in-flight language model stream and synthesis job,
    /// drain the playback track, and announce the barge-in.
    pub cancel_playback: bool,
}

/// Decision on a final transcript: in `Listening` it starts a
/// speaking turn; in `Speaking` it changes nothing.
pub fn on_transcript_final(phase: TurnPhase) -> (d: TurnDecision)
    ensures
        phase == TurnPhase::Listening ==> d == (TurnDecision {
            phase: TurnPhase::Speaking,
            submit_to_llm: true,
            cancel_playback: false,
        }),
        phase == TurnPhase::Speaking ==> d == (TurnDecision {
            phase: TurnPhase::Speaking,
            submit_to_llm: false,
            cancel_playback: false,
        }),
{
    match phase {
        TurnPhase::Listening => TurnDecision {
            phase: TurnPhase::Speaking,
            submit_to_llm: true,
            cancel_playback: false,
        },
        TurnPhase::Speaking => TurnDecision {
            phase: TurnPhase::Speaking,
            submit_to_llm: false,
            cancel_playback: false,
        },
    }
}

/// Whether voiced input barges in: only while speaking, and only
/// after the threshold has been exceeded continuously long enough.
pub open spec fn spec_barge_in(phase: TurnPhase, voiced_ms: u64) -> bool {
    phase == TurnPhase::Speaking && voiced_ms >= BARGE_IN_MIN_VOICED_MS
}

/// Decision on voiced input above the energy threshold that has
/// lasted `voiced_ms`: while speaking, enough voiced audio cancels
/// synthesis and returns to listening; otherwise nothing changes.
pub fn on_voiced_input(phase: TurnPhase, voiced_ms: u64) -> (d: TurnDecision)
    ensures
        spec_barge_in(phase, voiced_ms) ==> d == (TurnDecision {
            phase: TurnPhase::Listening,
            submit_to_llm: false,
            cancel_playback: true,
        }),
        !spec_barge_in(phase, voiced_ms) ==> d == (TurnDecision {
            phase: phase,
            submit_to_llm: false,
            cancel_playback: false,
        }),
{
    if matches!(phase, TurnPhase::Speaking) && voiced_ms >= BARGE_IN_MIN_VOICED_MS {
        TurnDecision { phase: TurnPhase::Listening, submit_to_llm: false, cancel_playback: true }
    } else {
        TurnDecision { phase, submit_to_llm: false, cancel_playback: false }
    }
}

/// Whether a recognizer input frame is suppressed as echo: only while
/// speaking, when its correlation with recent playback is above the
/// echo threshold (the correlation itself is measured outside).
pub fn suppress_as_echo(phase: TurnPhase, correlation_high: bool) -> (r: bool)
    ensures
        r == (phase == TurnPhase::Speaking && correlation_high),
{
    matches!(phase, TurnPhase::Speaking) && correlation_high
}

/// The wait before the next attempt against an unavailable provider,
/// after `failures` consecutive failures this turn: exponential from
/// the base (100 ms, then 200 ms), and `None` once the attempt
/// budget of three is spent — the caller then synthesizes the fixed
/// apology phrase and continues.
pub open spec fn spec_retry_backoff(failures: u32) -> Option<u64> {
    if failures == 1 {
        Some(RETRY_BASE_MS)
    } else if failures == 2 {
        Some((2 * RETRY_BASE_MS) as u64)
    } else {
        None
    }
}

/// Decide whether to retry an unavailable provider and how long to
/// wait first.
pub fn retry_backoff(failures: u32) -> (r: Option<u64>)
    ensures
        r == spec_retry_backoff(failures),
{
    if failures == 1 {
        Some(RETRY_BASE_MS)
    } else if failures == 2 {
        Some(2 * RETRY_BASE_MS)
    } else {
        None
    }
}

/// Law: the retry policy doubles its wait from the base and never
/// makes more than the allowed number of attempts: a third failure
/// (and any later one) is never retried.
pub proof fn lemma_retry_bounded(failures: u32)
    ensures
        failures >= RETRY_MAX_ATTEMPTS ==> spec_retry_backoff(failures) is None,
        spec_retry_backoff(failures) matches Some(w) ==> w == RETRY_BASE_MS * (
        if failures == 1 {
            1u64
        } else {
            2u64
        }),
{
}

} // verus!
