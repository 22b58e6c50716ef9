use iron_lss::error::LssDriverError;
use iron_lss::frame::{build_frame, parse_frame, CommandCode, ParsedResponse};
use iron_lss::message_types::CommandModifier;

#[test]
fn move_frame_matches_reference() {
    let f = build_frame(5, CommandCode::MoveDegrees, Some(30), &[]).unwrap();
    assert_eq!(f, b"#5D30\r".to_vec());
}

#[test]
fn voltage_response_decodes_raw_value() {
    let p = parse_frame(b"*5QV2182\r").unwrap();
    assert_eq!(p, ParsedResponse { device_id: 5, command: CommandCode::QueryVoltage, value: 2182 });
    assert_eq!(p.value, 2182);
}

#[test]
fn frames_with_modifiers_and_signs() {
    let mods = [CommandModifier::SpeedDegrees(90), CommandModifier::Timed(1500)];
    let f = build_frame(12, CommandCode::MoveRelative, Some(-450), &mods).unwrap();
    assert_eq!(f, b"#12MD-450SD90T1500\r".to_vec());
    let f = build_frame(0, CommandCode::QueryPosition, None, &[]).unwrap();
    assert_eq!(f, b"#0QD\r".to_vec());
    let f = build_frame(254, CommandCode::Limp, None, &[]).unwrap();
    assert_eq!(f, b"#254L\r".to_vec());
    let f = build_frame(3, CommandCode::SetLed, Some(2), &[]).unwrap();
    assert_eq!(f, b"#3LED2\r".to_vec());
    let f = build_frame(3, CommandCode::SetFilterPositionCount, Some(i32::MIN), &[]).unwrap();
    assert_eq!(f, b"#3FPC-2147483648\r".to_vec());
}

#[test]
fn frame_encoding_is_deterministic() {
    let mods = [CommandModifier::Speed(100), CommandModifier::Custom("X", -1)];
    let a = build_frame(7, CommandCode::MoveDegrees, Some(123), &mods).unwrap();
    let b = build_frame(7, CommandCode::MoveDegrees, Some(123), &mods).unwrap();
    assert_eq!(a, b);
}

#[test]
fn frame_misuse_is_rejected() {
    assert!(matches!(
        build_frame(255, CommandCode::QueryVoltage, None, &[]),
        Err(LssDriverError::InvalidAddress)
    ));
    assert!(matches!(
        build_frame(5, CommandCode::MoveDegrees, None, &[]),
        Err(LssDriverError::InvalidCommandUsage)
    ));
    assert!(matches!(
        build_frame(5, CommandCode::QueryVoltage, Some(1), &[]),
        Err(LssDriverError::InvalidCommandUsage)
    ));
    assert!(matches!(
        build_frame(5, CommandCode::SetLed, Some(1), &[CommandModifier::Speed(1)]),
        Err(LssDriverError::InvalidCommandUsage)
    ));
}

#[test]
fn negative_and_zero_responses() {
    let p = parse_frame(b"*253QD-300\r").unwrap();
    assert_eq!(p, ParsedResponse { device_id: 253, command: CommandCode::QueryPosition, value: -300 });
    let p = parse_frame(b"*0Q0\r").unwrap();
    assert_eq!(p, ParsedResponse { device_id: 0, command: CommandCode::QueryStatus, value: 0 });
    let p = parse_frame(b"*1QC-2147483648\r").unwrap();
    assert_eq!(p.value, i32::MIN);
}

#[test]
fn truncated_frames_are_rejected() {
    let full: &[u8] = b"*5QV2182\r";
    assert!(parse_frame(full).is_ok());
    for cut in 0..full.len() {
        assert!(parse_frame(&full[..cut]).is_err());
    }
}

#[test]
fn malformed_responses_are_rejected() {
    let bad: [&[u8]; 12] = [
        b"5QV2182\r",
        b"#5QV2182\r",
        b"*05QV1\r",
        b"*254QV1\r",
        b"*5XX1\r",
        b"*5QV\r",
        b"*5QV-0\r",
        b"*5QV01\r",
        b"*5QV2147483648\r",
        b"*5QV12\r\r",
        b"*QV12\r",
        b"*5QV1 \r",
    ];
    for b in bad.iter() {
        assert!(parse_frame(b).is_err());
    }
}

#[test]
fn parse_error_carries_raw_text() {
    match parse_frame(b"*5ZZ9\r") {
        Err(LssDriverError::PacketParsingError(m)) => assert_eq!(m, "*5ZZ9\r"),
        other => panic!("unexpected {:?}", other),
    }
}

#[test]
fn encoded_request_parses_as_response_after_marker_swap() {
    let mut f = build_frame(9, CommandCode::QueryTemperature, None, &[]).unwrap();
    f[0] = b'*';
    f.pop();
    f.extend_from_slice(b"-12\r");
    let p = parse_frame(&f).unwrap();
    assert_eq!(p, ParsedResponse { device_id: 9, command: CommandCode::QueryTemperature, value: -12 });
}
