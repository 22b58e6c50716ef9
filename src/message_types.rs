//! Protocol value types: closed enumerations with their wire integers, the
//! model identifier, and command modifiers with their wire suffixes.

use vstd::prelude::*;
use vstd::string::*;
use crate::decimal::{append_dec, append_signed_dec, dec_chars, signed_dec_chars};
use crate::error::LssDriverError;

verus! {

/// Text of the error raised when `value` is no wire integer of the
/// enumeration called `name`.
pub open spec fn parse_failure_text(name: Seq<char>, value: int) -> Seq<char> {
    "Failed parsing "@ + name + " from "@ + signed_dec_chars(value)
}

/// Builds the parse error for a rejected wire integer.
fn parse_failure(name: &str, value: i32) -> (r: LssDriverError)
    ensures
        r matches LssDriverError::PacketParsingError(m) && m@ == parse_failure_text(name@, value as int),
{
    let mut m = String::from_str("Failed parsing ");
    m.append(name);
    m.append(" from ");
    append_signed_dec(&mut m, value);
    LssDriverError::PacketParsingError(m)
}

/// Colors for the LED on the servo.
#[derive(Copy, Clone, Debug, PartialEq, Eq, Structural)]
pub enum LedColor {
    /// No color
    Off,
    Red,
    Green,
    Blue,
    Yellow,
    Cyan,
    Magenta,
    White,
}

impl LedColor {
    /// Wire integer of the color.
    pub open spec fn code(self) -> int {
        match self {
            LedColor::Off => 0,
            LedColor::Red => 1,
            LedColor::Green => 2,
            LedColor::Blue => 3,
            LedColor::Yellow => 4,
            LedColor::Cyan => 5,
            LedColor::Magenta => 6,
            LedColor::White => 7,
        }
    }

    /// The color a wire integer stands for, if any.
    pub open spec fn decode(n: int) -> Option<LedColor> {
        if n == 0 {
            Some(LedColor::Off)
        } else if n == 1 {
            Some(LedColor::Red)
        } else if n == 2 {
            Some(LedColor::Green)
        } else if n == 3 {
            Some(LedColor::Blue)
        } else if n == 4 {
            Some(LedColor::Yellow)
        } else if n == 5 {
            Some(LedColor::Cyan)
        } else if n == 6 {
            Some(LedColor::Magenta)
        } else if n == 7 {
            Some(LedColor::White)
        } else {
            None
        }
    }

    pub fn to_i32(self) -> (r: i32)
        ensures
            r == self.code(),
    {
        match self {
            LedColor::Off => 0,
            LedColor::Red => 1,
            LedColor::Green => 2,
            LedColor::Blue => 3,
            LedColor::Yellow => 4,
            LedColor::Cyan => 5,
            LedColor::Magenta => 6,
            LedColor::White => 7,
        }
    }

    pub fn from_i32(number: i32) -> (r: Result<LedColor, LssDriverError>)
        ensures
            (0 <= number <= 7) <==> r is Ok,
            r matches Ok(c) ==> LedColor::decode(number as int) == Some(c),
            r matches Err(e) ==> (e matches LssDriverError::PacketParsingError(m) && m@
                == parse_failure_text("LedColor"@, number as int)),
    {
        match number {
            0 => Ok(LedColor::Off),
            1 => Ok(LedColor::Red),
            2 => Ok(LedColor::Green),
            3 => Ok(LedColor::Blue),
            4 => Ok(LedColor::Yellow),
            5 => Ok(LedColor::Cyan),
            6 => Ok(LedColor::Magenta),
            7 => Ok(LedColor::White),
            value => Err(parse_failure("LedColor", value)),
        }
    }
}

/// Status of the motor as responded to a status query.
/// In `SafeMode` the safety status tells more.
#[derive(Copy, Clone, Debug, PartialEq, Eq, Structural)]
pub enum MotorStatus {
    Unknown,
    Limp,
    FreeMoving,
    Accelerating,
    Traveling,
    Decelerating,
    Holding,
    OutsideLimits,
    Stuck,
    Blocked,
    /// The safety status tells more.
    SafeMode,
}

impl MotorStatus {
    /// Wire integer of the value.
    pub open spec fn code(self) -> int {
        match self {
            MotorStatus::Unknown => 0,
            MotorStatus::Limp => 1,
            MotorStatus::FreeMoving => 2,
            MotorStatus::Accelerating => 3,
            MotorStatus::Traveling => 4,
            MotorStatus::Decelerating => 5,
            MotorStatus::Holding => 6,
            MotorStatus::OutsideLimits => 7,
            MotorStatus::Stuck => 8,
            MotorStatus::Blocked => 9,
            MotorStatus::SafeMode => 10,
        }
    }

    /// The value a wire integer stands for, if any.
    pub open spec fn decode(n: int) -> Option<MotorStatus> {
        if n == 0 {
            Some(MotorStatus::Unknown)
        } else if n == 1 {
            Some(MotorStatus::Limp)
        } else if n == 2 {
            Some(MotorStatus::FreeMoving)
        } else if n == 3 {
            Some(MotorStatus::Accelerating)
        } else if n == 4 {
            Some(MotorStatus::Traveling)
        } else if n == 5 {
            Some(MotorStatus::Decelerating)
        } else if n == 6 {
            Some(MotorStatus::Holding)
        } else if n == 7 {
            Some(MotorStatus::OutsideLimits)
        } else if n == 8 {
            Some(MotorStatus::Stuck)
        } else if n == 9 {
            Some(MotorStatus::Blocked)
        } else if n == 10 {
            Some(MotorStatus::SafeMode)
        } else {
            None
        }
    }

    pub fn to_i32(self) -> (r: i32)
        ensures
            r == self.code(),
    {
        match self {
            MotorStatus::Unknown => 0,
            MotorStatus::Limp => 1,
            MotorStatus::FreeMoving => 2,
            MotorStatus::Accelerating => 3,
            MotorStatus::Traveling => 4,
            MotorStatus::Decelerating => 5,
            MotorStatus::Holding => 6,
            MotorStatus::OutsideLimits => 7,
            MotorStatus::Stuck => 8,
            MotorStatus::Blocked => 9,
            MotorStatus::SafeMode => 10,
        }
    }

    pub fn from_i32(number: i32) -> (r: Result<MotorStatus, LssDriverError>)
        ensures
            (0 <= number <= 10) <==> r is Ok,
            r matches Ok(c) ==> MotorStatus::decode(number as int) == Some(c),
            r matches Err(e) ==> (e matches LssDriverError::PacketParsingError(m) && m@
                == parse_failure_text("MotorStatus"@, number as int)),
    {
        match number {
            0 => Ok(MotorStatus::Unknown),
            1 => Ok(MotorStatus::Limp),
            2 => Ok(MotorStatus::FreeMoving),
            3 => Ok(MotorStatus::Accelerating),
            4 => Ok(MotorStatus::Traveling),
            5 => Ok(MotorStatus::Decelerating),
            6 => Ok(MotorStatus::Holding),
            7 => Ok(MotorStatus::OutsideLimits),
            8 => Ok(MotorStatus::Stuck),
            9 => Ok(MotorStatus::Blocked),
            10 => Ok(MotorStatus::SafeMode),
            value => Err(parse_failure("MotorStatus", value)),
        }
    }
}

/// Reason why safe mode is engaged; `NoLimits` unless the motor status is
/// `SafeMode`.
#[derive(Copy, Clone, Debug, PartialEq, Eq, Structural)]
pub enum SafeModeStatus {
    /// Motor is not in safety mode
    NoLimits,
    /// The motor was probably overloaded
    CurrentLimit,
    /// Voltage is either too high or too low
    InputVoltageOutOfRange,
    /// The temperature is too high
    TemperatureLimit,
}

impl SafeModeStatus {
    /// Wire integer of the value.
    pub open spec fn code(self) -> int {
        match self {
            SafeModeStatus::NoLimits => 0,
            SafeModeStatus::CurrentLimit => 1,
            SafeModeStatus::InputVoltageOutOfRange => 2,
            SafeModeStatus::TemperatureLimit => 3,
        }
    }

    /// The value a wire integer stands for, if any.
    pub open spec fn decode(n: int) -> Option<SafeModeStatus> {
        if n == 0 {
            Some(SafeModeStatus::NoLimits)
        } else if n == 1 {
            Some(SafeModeStatus::CurrentLimit)
        } else if n == 2 {
            Some(SafeModeStatus::InputVoltageOutOfRange)
        } else if n == 3 {
            Some(SafeModeStatus::TemperatureLimit)
        } else {
            None
        }
    }

    pub fn to_i32(self) -> (r: i32)
        ensures
            r == self.code(),
    {
        match self {
            SafeModeStatus::NoLimits => 0,
            SafeModeStatus::CurrentLimit => 1,
            SafeModeStatus::InputVoltageOutOfRange => 2,
            SafeModeStatus::TemperatureLimit => 3,
        }
    }

    pub fn from_i32(number: i32) -> (r: Result<SafeModeStatus, LssDriverError>)
        ensures
            (0 <= number <= 3) <==> r is Ok,
            r matches Ok(c) ==> SafeModeStatus::decode(number as int) == Some(c),
            r matches Err(e) ==> (e matches LssDriverError::PacketParsingError(m) && m@
                == parse_failure_text("SafeModeStatus"@, number as int)),
    {
        match number {
            0 => Ok(SafeModeStatus::NoLimits),
            1 => Ok(SafeModeStatus::CurrentLimit),
            2 => Ok(SafeModeStatus::InputVoltageOutOfRange),
            3 => Ok(SafeModeStatus::TemperatureLimit),
            value => Err(parse_failure("SafeModeStatus", value)),
        }
    }
}

/// Each color decodes back from its wire integer; an integer decodes
/// exactly when it lies in 0..=7, and then to the value whose wire integer it is.
pub proof fn lemma_led_color_round_trip(v: LedColor, n: int)
    ensures
        LedColor::decode(v.code()) == Some(v),
        LedColor::decode(n) is Some <==> 0 <= n <= 7,
        LedColor::decode(n) matches Some(d) ==> d.code() == n,
{
}

/// Each motor status decodes back from its wire integer; an integer decodes
/// exactly when it lies in 0..=10, and then to the value whose wire integer it is.
pub proof fn lemma_motor_status_round_trip(v: MotorStatus, n: int)
    ensures
        MotorStatus::decode(v.code()) == Some(v),
        MotorStatus::decode(n) is Some <==> 0 <= n <= 10,
        MotorStatus::decode(n) matches Some(d) ==> d.code() == n,
{
}

/// Each safe mode status decodes back from its wire integer; an integer decodes
/// exactly when it lies in 0..=3, and then to the value whose wire integer it is.
pub proof fn lemma_safe_mode_status_round_trip(v: SafeModeStatus, n: int)
    ensures
        SafeModeStatus::decode(v.code()) == Some(v),
        SafeModeStatus::decode(n) is Some <==> 0 <= n <= 3,
        SafeModeStatus::decode(n) matches Some(d) ==> d.code() == n,
{
}

/// Whether two strings hold the same characters.
fn same_text(a: &str, b: &str) -> (r: bool)
    ensures
        r == (a@ == b@),
{
    let n = a.unicode_len();
    if n != b.unicode_len() {
        return false;
    }
    let mut i: usize = 0;
    while i < n
        invariant
            n == a@.len() == b@.len(),
            i <= n,
            a@.subrange(0, i as int) == b@.subrange(0, i as int),
        decreases n - i,
    {
        if a.get_char(i) != b.get_char(i) {
            return false;
        }
        assert(a@.subrange(0, i + 1) =~= a@.subrange(0, i as int).push(a@[i as int]));
        assert(b@.subrange(0, i + 1) =~= b@.subrange(0, i as int).push(b@[i as int]));
        i = i + 1;
    }
    assert(a@ =~= a@.subrange(0, n as int));
    assert(b@ =~= b@.subrange(0, n as int));
    true
}

/// Version of the motor.
#[derive(Clone, Debug)]
pub enum Model {
    /// Standard model
    ST1,
    /// High speed model
    HS1,
    /// High torque model
    HT1,
    /// A model identifier not known to this library.
    Other(String),
}

impl PartialEq for Model {
    fn eq(&self, o: &Model) -> (r: bool) {
        match (self, o) {
            (Model::ST1, Model::ST1) => true,
            (Model::HS1, Model::HS1) => true,
            (Model::HT1, Model::HT1) => true,
            (Model::Other(a), Model::Other(b)) => same_text(a.as_str(), b.as_str()),
            _ => false,
        }
    }
}

impl vstd::std_specs::cmp::PartialEqSpecImpl for Model {
    open spec fn obeys_eq_spec() -> bool {
        true
    }

    open spec fn eq_spec(&self, o: &Model) -> bool {
        match (self, o) {
            (Model::ST1, Model::ST1) => true,
            (Model::HS1, Model::HS1) => true,
            (Model::HT1, Model::HT1) => true,
            (Model::Other(a), Model::Other(b)) => a@ == b@,
            _ => false,
        }
    }
}

impl Model {
    /// Whether `text` is the identifier of one of the known models.
    pub open spec fn is_known(text: Seq<char>) -> bool {
        text == "LSS-ST1"@ || text == "LSS-HS1"@ || text == "LSS-HT1"@
    }

    /// Reads a model identifier; an unknown one is kept verbatim.
    pub fn from_str(model: &str) -> (r: Model)
        ensures
            r is ST1 <==> model@ == "LSS-ST1"@,
            r is HS1 <==> model@ == "LSS-HS1"@,
            r is HT1 <==> model@ == "LSS-HT1"@,
            r matches Model::Other(t) ==> t@ == model@ && !Model::is_known(model@),
    {
        proof {
            reveal_strlit("LSS-ST1");
            reveal_strlit("LSS-HS1");
            reveal_strlit("LSS-HT1");
            assert("LSS-ST1"@[4] != "LSS-HS1"@[4] && "LSS-ST1"@[4] != "LSS-HT1"@[4]);
            assert("LSS-HS1"@[5] != "LSS-HT1"@[5]);
        }
        if same_text(model, "LSS-ST1") {
            Model::ST1
        } else if same_text(model, "LSS-HS1") {
            Model::HS1
        } else if same_text(model, "LSS-HT1") {
            Model::HT1
        } else {
            Model::Other(model.to_owned())
        }
    }
}

/// Which status makes the LED blink; masks of several can be added up.
#[derive(Copy, Clone, Debug, PartialEq, Eq, Structural)]
pub enum LedBlinking {
    NoBlinking,
    Limp,
    Holding,
    Accelerating,
    Decelerating,
    Free,
    Travelling,
    AlwaysBlink,
}

impl LedBlinking {
    /// Wire mask of the value.
    pub open spec fn code(self) -> int {
        match self {
            LedBlinking::NoBlinking => 0,
            LedBlinking::Limp => 1,
            LedBlinking::Holding => 2,
            LedBlinking::Accelerating => 4,
            LedBlinking::Decelerating => 8,
            LedBlinking::Free => 16,
            LedBlinking::Travelling => 32,
            LedBlinking::AlwaysBlink => 63,
        }
    }

    pub fn to_i32(self) -> (r: i32)
        ensures
            r == self.code(),
    {
        match self {
            LedBlinking::NoBlinking => 0,
            LedBlinking::Limp => 1,
            LedBlinking::Holding => 2,
            LedBlinking::Accelerating => 4,
            LedBlinking::Decelerating => 8,
            LedBlinking::Free => 16,
            LedBlinking::Travelling => 32,
            LedBlinking::AlwaysBlink => 63,
        }
    }
}

/// A span of time as whole seconds and the nanoseconds past them.
#[derive(Copy, Clone, Debug, PartialEq, Eq, Structural)]
pub struct TimeSpan {
    pub secs: u64,
    pub subsec_nanos: u32,
}

impl TimeSpan {
    /// Whole milliseconds in the span.
    pub open spec fn millis(self) -> nat {
        self.secs as nat * 1000 + self.subsec_nanos as nat / 1_000_000
    }

    pub fn as_millis(self) -> (r: u128)
        ensures
            r == self.millis(),
    {
        self.secs as u128 * 1000 + (self.subsec_nanos / 1_000_000) as u128
    }
}

/// Modifiers used for some commands.
#[derive(Debug, Clone, Copy, PartialEq, Eq)]
pub enum CommandModifier {
    /// Speed in microseconds per second; for position commands.
    Speed(u32),
    /// Speed in degrees per second; for move commands.
    SpeedDegrees(u32),
    /// Duration of the action in milliseconds.
    Timed(u32),
    /// Duration of the action; sent in whole milliseconds.
    TimedDuration(TimeSpan),
    /// Current at which the servo halts and holds, in mA.
    CurrentHold(u32),
    /// Current at which the servo halts and goes limp, in mA.
    CurrentLimp(u32),
    /// No modifier: lets a modifiable command go without one.
    NoModifier,
    /// A modifier this library does not model: its tag, sent verbatim, and
    /// its value.
    Custom(&'static str, i32),
}

impl CommandModifier {
    /// Wire suffix of the modifier.
    pub open spec fn text(self) -> Seq<char> {
        match self {
            CommandModifier::Speed(v) => "S"@ + dec_chars(v as nat),
            CommandModifier::SpeedDegrees(v) => "SD"@ + dec_chars(v as nat),
            CommandModifier::Timed(v) => "T"@ + dec_chars(v as nat),
            CommandModifier::TimedDuration(t) => "T"@ + dec_chars(t.millis()),
            CommandModifier::CurrentHold(v) => "CH"@ + dec_chars(v as nat),
            CommandModifier::CurrentLimp(v) => "CL"@ + dec_chars(v as nat),
            CommandModifier::NoModifier => Seq::empty(),
            CommandModifier::Custom(tag, v) => tag@ + signed_dec_chars(v as int),
        }
    }

    /// Wire suffixes of a list of modifiers, in list order, with no separator.
    pub open spec fn list_text(mods: Seq<CommandModifier>) -> Seq<char>
        decreases mods.len(),
    {
        if mods.len() == 0 {
            Seq::empty()
        } else {
            CommandModifier::list_text(mods.drop_last()) + mods.last().text()
        }
    }

    pub fn to_msg(&self) -> (r: String)
        ensures
            r@ == self.text(),
    {
        let mut out = String::new();
        match *self {
            CommandModifier::Speed(v) => {
                out.append("S");
                append_dec(&mut out, v as u128);
            },
            CommandModifier::SpeedDegrees(v) => {
                out.append("SD");
                append_dec(&mut out, v as u128);
            },
            CommandModifier::Timed(v) => {
                out.append("T");
                append_dec(&mut out, v as u128);
            },
            CommandModifier::TimedDuration(t) => {
                out.append("T");
                append_dec(&mut out, t.as_millis());
            },
            CommandModifier::CurrentHold(v) => {
                out.append("CH");
                append_dec(&mut out, v as u128);
            },
            CommandModifier::CurrentLimp(v) => {
                out.append("CL");
                append_dec(&mut out, v as u128);
            },
            CommandModifier::NoModifier => {},
            CommandModifier::Custom(tag, v) => {
                out.append(tag);
                append_signed_dec(&mut out, v);
            },
        }
        assert(out@ =~= self.text());
        out
    }

    pub fn vec_to_msg(modifiers: &[CommandModifier]) -> (r: String)
        ensures
            r@ == CommandModifier::list_text(modifiers@),
    {
        let mut buffer = String::new();
        let mut i: usize = 0;
        while i < modifiers.len()
            invariant
                i <= modifiers@.len(),
                buffer@ == CommandModifier::list_text(modifiers@.subrange(0, i as int)),
            decreases modifiers@.len() - i,
        {
            let token = modifiers[i].to_msg();
            buffer.append(token.as_str());
            assert(modifiers@.subrange(0, i + 1).drop_last() =~= modifiers@.subrange(0, i as int));
            i = i + 1;
        }
        assert(modifiers@.subrange(0, i as int) =~= modifiers@);
        buffer
    }
}

/// The text of two lists of modifiers placed one after the other is the text
/// of the first followed by the text of the second.
pub proof fn lemma_list_text_concat(a: Seq<CommandModifier>, b: Seq<CommandModifier>)
    ensures
        CommandModifier::list_text(a + b) == CommandModifier::list_text(a) + CommandModifier::list_text(
            b,
        ),
    decreases b.len(),
{
    if b.len() == 0 {
        assert(a + b =~= a);
        assert(CommandModifier::list_text(a) + CommandModifier::list_text(b) =~= CommandModifier::list_text(a));
    } else {
        assert((a + b).drop_last() =~= a + b.drop_last());
        lemma_list_text_concat(a, b.drop_last());
        assert(CommandModifier::list_text(a + b) =~= CommandModifier::list_text(a)
            + CommandModifier::list_text(b));
    }
}

/// The text of a list of modifiers is each modifier's suffix, in list order,
/// with no separator; reversing the list reverses the order of the suffixes.
pub proof fn lemma_modifier_order(mods: Seq<CommandModifier>)
    ensures
        CommandModifier::list_text(mods) == mods.map_values(|m: CommandModifier| m.text()).flatten(),
        CommandModifier::list_text(mods.reverse()) == mods.map_values(
            |m: CommandModifier| m.text(),
        ).reverse().flatten(),
{
    lemma_list_text_tokens(mods);
    lemma_list_text_tokens(mods.reverse());
    assert(mods.reverse().map_values(|m: CommandModifier| m.text()) =~= mods.map_values(
        |m: CommandModifier| m.text(),
    ).reverse());
}

proof fn lemma_list_text_tokens(mods: Seq<CommandModifier>)
    ensures
        CommandModifier::list_text(mods) == mods.map_values(|m: CommandModifier| m.text()).flatten(),
    decreases mods.len(),
{
    if mods.len() > 0 {
        let rest = mods.drop_first();
        assert(mods =~= seq![mods[0]] + rest);
        lemma_list_text_concat(seq![mods[0]], rest);
        lemma_list_text_tokens(rest);
        assert(seq![mods[0]].drop_last() =~= Seq::<CommandModifier>::empty());
        assert(CommandModifier::list_text(Seq::<CommandModifier>::empty()) == Seq::<char>::empty());
        assert(seq![mods[0]].last() == mods[0]);
        assert(CommandModifier::list_text(seq![mods[0]]) =~= mods[0].text());
        assert(mods.map_values(|m: CommandModifier| m.text()).drop_first() =~= rest.map_values(
            |m: CommandModifier| m.text(),
        ));
    } else {
        assert(mods.map_values(|m: CommandModifier| m.text()).len() == 0);
    }
}

} // verus!
