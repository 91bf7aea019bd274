use broadcast_hub::session::{session_step, SessionAction, SessionEvent, SessionState};

#[test]
fn happy_path_reader_closes_first() {
    let (s, a) = session_step(SessionState::Connecting, SessionEvent::HandshakeComplete);
    assert_eq!(s, SessionState::Registered);
    assert_eq!(a, SessionAction::RegisterConnection);
    let (s, a) = session_step(s, SessionEvent::RegistrationDone);
    assert_eq!(s, SessionState::Active);
    assert_eq!(a, SessionAction::SpawnLoops);
    let (s, a) = session_step(s, SessionEvent::ReaderExited);
    assert_eq!(s, SessionState::Closing);
    assert_eq!(a, SessionAction::StopWriter);
    let (s, a) = session_step(s, SessionEvent::PeerLoopExited);
    assert_eq!(s, SessionState::Closed);
    assert_eq!(a, SessionAction::DeregisterAndRelease);
}

#[test]
fn writer_failure_aborts_reader() {
    let (s, a) = session_step(SessionState::Active, SessionEvent::WriterFailed);
    assert_eq!(s, SessionState::Closing);
    assert_eq!(a, SessionAction::AbortReader);
}

#[test]
fn closed_is_terminal() {
    for e in [
        SessionEvent::HandshakeComplete,
        SessionEvent::RegistrationDone,
        SessionEvent::ReaderExited,
        SessionEvent::WriterFailed,
        SessionEvent::PeerLoopExited,
    ] {
        let (s, a) = session_step(SessionState::Closed, e);
        assert_eq!(s, SessionState::Closed);
        assert_eq!(a, SessionAction::NoOp);
    }
}

#[test]
fn events_out_of_place_do_nothing() {
    let (s, a) = session_step(SessionState::Connecting, SessionEvent::ReaderExited);
    assert_eq!(s, SessionState::Connecting);
    assert_eq!(a, SessionAction::NoOp);
    let (s, a) = session_step(SessionState::Registered, SessionEvent::PeerLoopExited);
    assert_eq!(s, SessionState::Registered);
    assert_eq!(a, SessionAction::NoOp);
}
