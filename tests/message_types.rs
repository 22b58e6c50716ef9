use iron_lss::error::LssDriverError;
use iron_lss::message_types::{
    CommandModifier, LedBlinking, LedColor, Model, MotorStatus, SafeModeStatus, TimeSpan,
};

fn error_text(e: LssDriverError) -> String {
    match e {
        LssDriverError::PacketParsingError(m) => m,
        other => panic!("unexpected error {:?}", other),
    }
}

#[test]
fn model_parses_other() {
    let model = Model::from_str("something");
    assert_eq!(model, Model::Other("something".to_owned()));
}

#[test]
fn color_parse_fails() {
    let color = LedColor::from_i32(42);
    assert!(color.is_err());
}

#[test]
fn colors_parse() {
    let params = vec![
        (LedColor::Off, 0),
        (LedColor::Red, 1),
        (LedColor::Green, 2),
        (LedColor::Blue, 3),
        (LedColor::Yellow, 4),
        (LedColor::Cyan, 5),
        (LedColor::Magenta, 6),
        (LedColor::White, 7),
    ];
    for (expected_color, int) in params {
        let color = LedColor::from_i32(int).unwrap();
        assert_eq!(expected_color, color);
    }
}

#[test]
fn motor_status_parse_fails() {
    let status = MotorStatus::from_i32(42);
    assert!(status.is_err());
}

#[test]
fn motor_status_parse() {
    let params = vec![
        (MotorStatus::Unknown, 0),
        (MotorStatus::Limp, 1),
        (MotorStatus::FreeMoving, 2),
        (MotorStatus::Accelerating, 3),
        (MotorStatus::Traveling, 4),
        (MotorStatus::Decelerating, 5),
        (MotorStatus::Holding, 6),
        (MotorStatus::OutsideLimits, 7),
        (MotorStatus::Stuck, 8),
        (MotorStatus::Blocked, 9),
        (MotorStatus::SafeMode, 10),
    ];
    for (expected_status, int) in params {
        let status = MotorStatus::from_i32(int).unwrap();
        assert_eq!(expected_status, status);
    }
}

#[test]
fn enumerations_round_trip() {
    for n in 0..8 {
        assert_eq!(LedColor::from_i32(n).unwrap().to_i32(), n);
    }
    for n in 0..11 {
        assert_eq!(MotorStatus::from_i32(n).unwrap().to_i32(), n);
    }
    for n in 0..4 {
        assert_eq!(SafeModeStatus::from_i32(n).unwrap().to_i32(), n);
    }
    assert_eq!(LedColor::from_i32(LedColor::Cyan.to_i32()).unwrap(), LedColor::Cyan);
    assert_eq!(
        SafeModeStatus::from_i32(SafeModeStatus::TemperatureLimit.to_i32()).unwrap(),
        SafeModeStatus::TemperatureLimit
    );
}

#[test]
fn rejection_names_enumeration_and_value() {
    let e = MotorStatus::from_i32(42).unwrap_err();
    assert_eq!(error_text(e), "Failed parsing MotorStatus from 42");
    let e = LedColor::from_i32(8).unwrap_err();
    assert_eq!(error_text(e), "Failed parsing LedColor from 8");
    let e = SafeModeStatus::from_i32(-1).unwrap_err();
    assert_eq!(error_text(e), "Failed parsing SafeModeStatus from -1");
    let e = SafeModeStatus::from_i32(4).unwrap_err();
    assert_eq!(error_text(e), "Failed parsing SafeModeStatus from 4");
    let e = LedColor::from_i32(i32::MIN).unwrap_err();
    assert_eq!(error_text(e), "Failed parsing LedColor from -2147483648");
}

#[test]
fn motor_status_ten_is_safe_mode() {
    assert_eq!(MotorStatus::from_i32(10).unwrap(), MotorStatus::SafeMode);
    assert!(MotorStatus::from_i32(11).is_err());
}

#[test]
fn known_models_parse() {
    assert_eq!(Model::from_str("LSS-ST1"), Model::ST1);
    assert_eq!(Model::from_str("LSS-HS1"), Model::HS1);
    assert_eq!(Model::from_str("LSS-HT1"), Model::HT1);
    assert_eq!(Model::from_str("LSS-ST2"), Model::Other("LSS-ST2".to_owned()));
    assert_eq!(Model::from_str(""), Model::Other(String::new()));
    assert_ne!(Model::ST1, Model::HS1);
}

#[test]
fn blinking_masks() {
    assert_eq!(LedBlinking::NoBlinking.to_i32(), 0);
    assert_eq!(LedBlinking::Limp.to_i32(), 1);
    assert_eq!(LedBlinking::Holding.to_i32(), 2);
    assert_eq!(LedBlinking::Accelerating.to_i32(), 4);
    assert_eq!(LedBlinking::Decelerating.to_i32(), 8);
    assert_eq!(LedBlinking::Free.to_i32(), 16);
    assert_eq!(LedBlinking::Travelling.to_i32(), 32);
    assert_eq!(LedBlinking::AlwaysBlink.to_i32(), 63);
}

#[test]
fn modifiers_encode() {
    assert_eq!(CommandModifier::Speed(100).to_msg(), "S100");
    assert_eq!(CommandModifier::SpeedDegrees(5).to_msg(), "SD5");
    assert_eq!(CommandModifier::Timed(200).to_msg(), "T200");
    assert_eq!(CommandModifier::Timed(0).to_msg(), "T0");
    let span = TimeSpan { secs: 1, subsec_nanos: 500_900_000 };
    assert_eq!(span.as_millis(), 1500);
    assert_eq!(CommandModifier::TimedDuration(span).to_msg(), "T1500");
    assert_eq!(CommandModifier::CurrentHold(300).to_msg(), "CH300");
    assert_eq!(CommandModifier::CurrentLimp(4294967295).to_msg(), "CL4294967295");
    assert_eq!(CommandModifier::NoModifier.to_msg(), "");
    assert_eq!(CommandModifier::Custom("XY", -5).to_msg(), "XY-5");
    assert_eq!(CommandModifier::Custom("Z", 1000).to_msg(), "Z1000");
}

#[test]
fn modifier_order_is_kept() {
    let mods = [CommandModifier::Speed(100), CommandModifier::Timed(200)];
    assert_eq!(CommandModifier::vec_to_msg(&mods), "S100T200");
    let reversed = [CommandModifier::Timed(200), CommandModifier::Speed(100)];
    assert_eq!(CommandModifier::vec_to_msg(&reversed), "T200S100");
    assert_eq!(CommandModifier::vec_to_msg(&[]), "");
    let mixed = [
        CommandModifier::NoModifier,
        CommandModifier::CurrentHold(10),
        CommandModifier::Custom("Q", 3),
    ];
    assert_eq!(CommandModifier::vec_to_msg(&mixed), "CH10Q3");
}
