use iron_lss::error::LssDriverError;
use iron_lss::frame::{CommandCode, ParsedResponse};
use iron_lss::session::{Session, Step};

#[test]
fn query_exchange_completes() {
    let mut s = Session::new();
    assert!(s.is_idle());
    let req = s.start(5, CommandCode::QueryVoltage, None, &[]).unwrap();
    assert_eq!(req.frame, b"#5QV\r".to_vec());
    assert!(!req.drain_first);
    assert!(!s.is_idle());
    assert!(matches!(s.sent(true), Step::Read));
    assert!(matches!(s.received(b"*5QV"), Step::Read));
    match s.received(b"11200\rjunk") {
        Step::Done(Some(p)) => assert_eq!(
            p,
            ParsedResponse { device_id: 5, command: CommandCode::QueryVoltage, value: 11200 }
        ),
        other => panic!("unexpected {:?}", other),
    }
    assert!(s.is_idle());
}

#[test]
fn timeout_then_next_call_succeeds() {
    let mut s = Session::new();
    s.start(5, CommandCode::QueryCurrent, None, &[]).unwrap();
    assert!(matches!(s.sent(true), Step::Read));
    assert!(matches!(s.received(b"*5Q"), Step::Read));
    assert!(matches!(s.timed_out(), Step::Failed(LssDriverError::TimeoutError)));
    assert!(s.is_idle());
    let req = s.start(5, CommandCode::QueryCurrent, None, &[]).unwrap();
    assert!(req.drain_first);
    assert!(matches!(s.sent(true), Step::Read));
    match s.received(b"*5QC140\r") {
        Step::Done(Some(p)) => assert_eq!(p.value, 140),
        other => panic!("unexpected {:?}", other),
    }
    let req = s.start(5, CommandCode::QueryCurrent, None, &[]).unwrap();
    assert!(!req.drain_first);
}

#[test]
fn actuation_and_broadcast_skip_the_answer() {
    let mut s = Session::new();
    s.start(5, CommandCode::MoveDegrees, Some(300), &[]).unwrap();
    assert!(matches!(s.sent(true), Step::Done(None)));
    assert!(s.is_idle());
    s.start(254, CommandCode::QueryVoltage, None, &[]).unwrap();
    assert!(matches!(s.sent(true), Step::Done(None)));
    assert!(s.is_idle());
}

#[test]
fn failed_write_ends_exchange() {
    let mut s = Session::new();
    s.start(5, CommandCode::QueryVoltage, None, &[]).unwrap();
    assert!(matches!(s.sent(false), Step::Failed(LssDriverError::SendingError)));
    assert!(s.is_idle());
}

#[test]
fn misattributed_or_bad_answer_is_a_parse_error() {
    let mut s = Session::new();
    s.start(5, CommandCode::QueryVoltage, None, &[]).unwrap();
    s.sent(true);
    match s.received(b"*6QV100\r") {
        Step::Failed(LssDriverError::PacketParsingError(m)) => assert_eq!(m, "*6QV100\r"),
        other => panic!("unexpected {:?}", other),
    }
    assert!(s.is_idle());
    s.start(5, CommandCode::QueryVoltage, None, &[]).unwrap();
    s.sent(true);
    assert!(matches!(s.received(b"garbage\r"), Step::Failed(LssDriverError::PacketParsingError(_))));
    assert!(s.is_idle());
}

#[test]
fn refused_request_leaves_session_idle() {
    let mut s = Session::new();
    assert!(matches!(
        s.start(255, CommandCode::QueryVoltage, None, &[]),
        Err(LssDriverError::InvalidAddress)
    ));
    assert!(s.is_idle());
    assert!(s.start(5, CommandCode::QueryVoltage, None, &[]).is_ok());
}
