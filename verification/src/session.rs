//! The per-connection session lifecycle:
//! Connecting -> Registered -> Active -> Closing -> Closed.
//! The controller feeds events in and performs the returned action; the
//! terminal state is reached exactly once and nothing happens after it.

use vstd::prelude::*;

verus! {

#[derive(Clone, Copy, PartialEq, Eq, Structural, Debug)]
pub enum SessionState {
    Connecting,
    Registered,
    Active,
    Closing,
    Closed,
}

/// What the controller observed: the handshake handed over a live
/// connection, registration finished, one of the two loops ended, or the
/// remaining loop ended too.
#[derive(Clone, Copy, PartialEq, Eq, Structural, Debug)]
pub enum SessionEvent {
    HandshakeComplete,
    RegistrationDone,
    ReaderExited,
    WriterFailed,
    PeerLoopExited,
}

/// What the controller must do on the transition: allocate and register,
/// start the two loops, close the queue so the writer stops, abort the
/// reader so its pending receive fails, or deregister and release
/// everything. `NoOp` is for events that do not apply in the state.
#[derive(Clone, Copy, PartialEq, Eq, Structural, Debug)]
pub enum SessionAction {
    RegisterConnection,
    SpawnLoops,
    StopWriter,
    AbortReader,
    DeregisterAndRelease,
    NoOp,
}

/// The full transition table. Teardown starts with whichever of reader
/// exit and writer failure comes first; the other loop's exit completes it.
pub open spec fn spec_session_step(s: SessionState, e: SessionEvent) -> (SessionState, SessionAction) {
    match (s, e) {
        (SessionState::Connecting, SessionEvent::HandshakeComplete) => (
            SessionState::Registered,
            SessionAction::RegisterConnection,
        ),
        (SessionState::Registered, SessionEvent::RegistrationDone) => (
            SessionState::Active,
            SessionAction::SpawnLoops,
        ),
        (SessionState::Active, SessionEvent::ReaderExited) => (
            SessionState::Closing,
            SessionAction::StopWriter,
        ),
        (SessionState::Active, SessionEvent::WriterFailed) => (
            SessionState::Closing,
            SessionAction::AbortReader,
        ),
        (SessionState::Closing, SessionEvent::PeerLoopExited) => (
            SessionState::Closed,
            SessionAction::DeregisterAndRelease,
        ),
        _ => (s, SessionAction::NoOp),
    }
}

/// One step of the session lifecycle controller.
pub fn session_step(s: SessionState, e: SessionEvent) -> (r: (SessionState, SessionAction))
    ensures
        r == spec_session_step(s, e),
{
    match (s, e) {
        (SessionState::Connecting, SessionEvent::HandshakeComplete) => (
            SessionState::Registered,
            SessionAction::RegisterConnection,
        ),
        (SessionState::Registered, SessionEvent::RegistrationDone) => (
            SessionState::Active,
            SessionAction::SpawnLoops,
        ),
        (SessionState::Active, SessionEvent::ReaderExited) => (
            SessionState::Closing,
            SessionAction::StopWriter,
        ),
        (SessionState::Active, SessionEvent::WriterFailed) => (
            SessionState::Closing,
            SessionAction::AbortReader,
        ),
        (SessionState::Closing, SessionEvent::PeerLoopExited) => (
            SessionState::Closed,
            SessionAction::DeregisterAndRelease,
        ),
        _ => (s, SessionAction::NoOp),
    }
}

/// `Closed` is terminal: no event leads out of it and no action is taken
/// after it.
pub proof fn lemma_closed_is_terminal()
    ensures
        forall|e: SessionEvent|
            #[trigger] spec_session_step(SessionState::Closed, e)
                == (SessionState::Closed, SessionAction::NoOp),
{
}

/// `Closed` is entered exactly once: the only transition into it is the
/// teardown completion out of `Closing`, which deregisters and releases.
pub proof fn lemma_closed_entered_once()
    ensures
        forall|s: SessionState, e: SessionEvent|
            s != SessionState::Closed && (#[trigger] spec_session_step(s, e)).0 == SessionState::Closed
                ==> s == SessionState::Closing && e == SessionEvent::PeerLoopExited
                    && spec_session_step(s, e).1 == SessionAction::DeregisterAndRelease,
{
}

} // verus!
