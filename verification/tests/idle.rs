use imap::error::{Error, ParseError, ValidateError};
use imap::extensions::idle::{
    idle_step, stop_on_any, wait_step, CallbackAction, Handle, IdleEvent, WaitEvent, WaitOutcome, WaitStep,
};
use imap::types::UnsolicitedResponse;
use std::time::Duration;

#[test]
fn idle_handle_states() {
    let mut h = Handle::make();
    assert_eq!(h.keepalive(), Duration::from_secs(29 * 60));
    assert!(h.init(b"+ idling\r\n"));
    assert!(!h.init(b"a1 BAD no\r\n"));
    h.set_keepalive(Duration::from_secs(60));
    assert_eq!(h.keepalive(), Duration::from_secs(60));
    // DONE is sent once.
    assert!(h.terminate());
    assert!(!h.terminate());
    assert_eq!(stop_on_any(UnsolicitedResponse::Exists(3)), CallbackAction::Stop);
}

#[test]
fn idle_step_events() {
    let mut v = b"* OK Still here\r\n".to_vec();
    assert!(matches!(idle_step(&mut v), IdleEvent::Waiting));
    assert!(v.is_empty());

    let mut v = b"* ok still HERE\r\n".to_vec();
    assert!(matches!(idle_step(&mut v), IdleEvent::Waiting));
    assert!(v.is_empty());

    let mut v = b"* 3 EXISTS\r\n* 1 RECENT\r\n".to_vec();
    match idle_step(&mut v) {
        IdleEvent::Response(UnsolicitedResponse::Exists(3)) => {}
        other => panic!("unexpected: {:?}", other),
    }
    assert_eq!(v, b"* 1 RECENT\r\n".to_vec());
    match idle_step(&mut v) {
        IdleEvent::Response(UnsolicitedResponse::Recent(1)) => {}
        other => panic!("unexpected: {:?}", other),
    }

    let mut v = b"* 2 FETCH (FLAGS (\\Seen)".to_vec();
    assert!(matches!(idle_step(&mut v), IdleEvent::Waiting));
    assert_eq!(v, b"* 2 FETCH (FLAGS (\\Seen)".to_vec());

    let mut v = b"garbage\r\n".to_vec();
    assert!(matches!(idle_step(&mut v), IdleEvent::Failed(_)));
}

#[test]
fn error_texts() {
    assert_eq!(Error::ConnectionLost.to_string(), "Connection Lost");
    assert_eq!(Error::ConnectionLost.description(), "Connection lost");
    assert_eq!(Error::Append.to_string(), "Could not append mail to mailbox");
    assert_eq!(Error::Validate(ValidateError('\n')).to_string(), "Invalid character in input: '\\n'");
    assert_eq!(Error::Validate(ValidateError('\r')).description(), "Invalid character in input");
    let p = Error::Parse(ParseError::Invalid(b"x".to_vec()));
    assert_eq!(p.to_string(), "Unable to parse status response");
    assert_eq!(p.description(), "Unable to parse status response");
    assert_eq!(Error::MissingStatusResponse.description(), "Missing STATUS Response");
    let io = Error::from(std::io::Error::new(std::io::ErrorKind::Other, "boom"));
    assert_eq!(io.to_string(), "boom");
    match Error::from(ParseError::Authentication("x".to_string(), None)) {
        Error::Parse(e) => assert_eq!(e.to_string(), "Unable to parse authentication response"),
        other => panic!("unexpected: {:?}", other),
    }
}

#[test]
fn wait_steps() {
    assert_eq!(wait_step(true, WaitEvent::TimedOut), WaitStep::Renew);
    assert_eq!(wait_step(false, WaitEvent::TimedOut), WaitStep::Finish(WaitOutcome::TimedOut));
    assert_eq!(
        wait_step(true, WaitEvent::Answered(CallbackAction::Stop)),
        WaitStep::Finish(WaitOutcome::MailboxChanged)
    );
    assert_eq!(wait_step(false, WaitEvent::Answered(CallbackAction::Continue)), WaitStep::ReadMore);
}
