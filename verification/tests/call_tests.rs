use voicegate::call::call_transition;
use voicegate::call::on_transcript_final;
use voicegate::call::on_voiced_input;
use voicegate::call::retry_backoff;
use voicegate::call::suppress_as_echo;
use voicegate::call::CallSignal;
use voicegate::call::CallState;
use voicegate::call::TurnPhase;
use voicegate::call::BARGE_IN_MIN_VOICED_MS;

#[test]
fn lifecycle_happy_path() {
    let s = CallState::Init;
    let s = call_transition(s, CallSignal::Accept);
    assert_eq!(s, CallState::Ringing);
    let s = call_transition(s, CallSignal::Answered);
    assert_eq!(s, CallState::Established);
    let s = call_transition(s, CallSignal::Hangup);
    assert_eq!(s, CallState::Terminating);
    let s = call_transition(s, CallSignal::TeardownComplete);
    assert_eq!(s, CallState::Closed);
}

#[test]
fn lifecycle_reject_and_timeout_terminate() {
    assert_eq!(call_transition(CallState::Init, CallSignal::Reject), CallState::Terminating);
    assert_eq!(call_transition(CallState::Ringing, CallSignal::Timeout), CallState::Terminating);
    assert_eq!(
        call_transition(CallState::Established, CallSignal::PeerBye),
        CallState::Terminating
    );
}

#[test]
fn lifecycle_closed_is_terminal() {
    for sig in [
        CallSignal::Accept,
        CallSignal::Answered,
        CallSignal::Reject,
        CallSignal::Timeout,
        CallSignal::Hangup,
        CallSignal::PeerBye,
        CallSignal::TeardownComplete,
    ] {
        assert_eq!(call_transition(CallState::Closed, sig), CallState::Closed);
    }
}

#[test]
fn final_transcript_starts_speaking_turn() {
    let d = on_transcript_final(TurnPhase::Listening);
    assert_eq!(d.phase, TurnPhase::Speaking);
    assert!(d.submit_to_llm);
    assert!(!d.cancel_playback);
}

// Speech above threshold for the required duration while speaking
// cancels synthesis and returns to listening.
#[test]
fn barge_in_cancels_playback() {
    let d = on_voiced_input(TurnPhase::Speaking, BARGE_IN_MIN_VOICED_MS);
    assert_eq!(d.phase, TurnPhase::Listening);
    assert!(d.cancel_playback);
    assert!(!d.submit_to_llm);
}

#[test]
fn short_speech_does_not_barge_in() {
    let d = on_voiced_input(TurnPhase::Speaking, BARGE_IN_MIN_VOICED_MS - 1);
    assert_eq!(d.phase, TurnPhase::Speaking);
    assert!(!d.cancel_playback);
    // while listening, voiced input never cancels anything
    let d = on_voiced_input(TurnPhase::Listening, 10_000);
    assert_eq!(d.phase, TurnPhase::Listening);
    assert!(!d.cancel_playback);
}

#[test]
fn echo_suppressed_only_while_speaking() {
    assert!(suppress_as_echo(TurnPhase::Speaking, true));
    assert!(!suppress_as_echo(TurnPhase::Speaking, false));
    assert!(!suppress_as_echo(TurnPhase::Listening, true));
}

// Two failures are retried with 100 ms and 200 ms waits; a third
// failure exhausts the attempt budget.
#[test]
fn provider_retry_backoff_schedule() {
    assert_eq!(retry_backoff(1), Some(100));
    assert_eq!(retry_backoff(2), Some(200));
    assert_eq!(retry_backoff(3), None);
    assert_eq!(retry_backoff(7), None);
}
