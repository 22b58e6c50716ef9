//! The command catalogue and the frame codec: requests built from a device
//! id, a command, an optional value and modifiers; responses parsed back.

use vstd::prelude::*;
use vstd::utf8::encode_utf8;
use crate::decimal::{
    all_digits, ascii_chars, canonical_digits, canonical_value, dec_bytes, digits_value, is_digit,
    lemma_canonical_digits_dec, lemma_dec_bytes_canonical, push_dec, MINUS_SIGN, push_signed_dec, scan_digits,
    signed_dec_bytes,
};
use crate::error::LssDriverError;
use crate::message_types::CommandModifier;

verus! {

/// Highest id of an individual device.
pub const MAX_DEVICE_ID: u8 = 253;

/// The id that addresses every device on the line.
pub const BROADCAST_ID: u8 = 254;

/// Marker byte that opens a request frame.
pub const REQUEST_MARKER: u8 = 35;

/// Marker byte that opens a response frame.
pub const RESPONSE_MARKER: u8 = 42;

/// Delimiter byte that closes every frame.
pub const DELIMITER: u8 = 13;

/// The commands of the protocol.
#[derive(Copy, Clone, Debug, PartialEq, Eq, Structural)]
pub enum CommandCode {
    /// Goes limp.
    Limp,
    /// Halts and holds the current position.
    Halt,
    /// Moves to an absolute position, in tenths of a degree.
    MoveDegrees,
    /// Moves by an offset from the current position, in tenths of a degree.
    MoveRelative,
    /// Sets the LED color (a `LedColor` wire integer).
    SetLed,
    /// Sets which statuses make the LED blink (a sum of `LedBlinking` masks).
    SetBlinking,
    /// Turns the motion profile on (1) or off (0).
    SetMotionProfile,
    /// Sets the angular stiffness.
    SetAngularStiffness,
    /// Sets the angular holding stiffness.
    SetAngularHolding,
    /// Sets the filter position count.
    SetFilterPositionCount,
    /// Queries the motor status (a `MotorStatus` wire integer).
    QueryStatus,
    /// Queries the position, in tenths of a degree.
    QueryPosition,
    /// Queries the input voltage, in millivolts.
    QueryVoltage,
    /// Queries the temperature, in tenths of a degree Celsius.
    QueryTemperature,
    /// Queries the current, in milliamps.
    QueryCurrent,
}

impl CommandCode {
    /// The command's opcode, in ASCII.
    pub open spec fn text(self) -> Seq<u8> {
        match self {
            CommandCode::Limp => seq![76u8],  // L
            CommandCode::Halt => seq![72u8],  // H
            CommandCode::MoveDegrees => seq![68u8],  // D
            CommandCode::MoveRelative => seq![77u8, 68],  // MD
            CommandCode::SetLed => seq![76u8, 69, 68],  // LED
            CommandCode::SetBlinking => seq![67u8, 76, 66],  // CLB
            CommandCode::SetMotionProfile => seq![69u8, 77],  // EM
            CommandCode::SetAngularStiffness => seq![65u8, 83],  // AS
            CommandCode::SetAngularHolding => seq![65u8, 72],  // AH
            CommandCode::SetFilterPositionCount => seq![70u8, 80, 67],  // FPC
            CommandCode::QueryStatus => seq![81u8],  // Q
            CommandCode::QueryPosition => seq![81u8, 68],  // QD
            CommandCode::QueryVoltage => seq![81u8, 86],  // QV
            CommandCode::QueryTemperature => seq![81u8, 84],  // QT
            CommandCode::QueryCurrent => seq![81u8, 67],  // QC
        }
    }

    /// Whether a frame of this command carries a value.
    pub open spec fn has_value(self) -> bool {
        match self {
            CommandCode::MoveDegrees => true,
            CommandCode::MoveRelative => true,
            CommandCode::SetLed => true,
            CommandCode::SetBlinking => true,
            CommandCode::SetMotionProfile => true,
            CommandCode::SetAngularStiffness => true,
            CommandCode::SetAngularHolding => true,
            CommandCode::SetFilterPositionCount => true,
            _ => false,
        }
    }

    /// Whether this command accepts modifiers.
    pub open spec fn has_modifiers(self) -> bool {
        match self {
            CommandCode::MoveDegrees => true,
            CommandCode::MoveRelative => true,
            _ => false,
        }
    }

    /// Whether a device answers this command.
    pub open spec fn has_response(self) -> bool {
        match self {
            CommandCode::QueryStatus => true,
            CommandCode::QueryPosition => true,
            CommandCode::QueryVoltage => true,
            CommandCode::QueryTemperature => true,
            CommandCode::QueryCurrent => true,
            _ => false,
        }
    }

    pub fn takes_value(self) -> (r: bool)
        ensures
            r == self.has_value(),
    {
        match self {
            CommandCode::MoveDegrees => true,
            CommandCode::MoveRelative => true,
            CommandCode::SetLed => true,
            CommandCode::SetBlinking => true,
            CommandCode::SetMotionProfile => true,
            CommandCode::SetAngularStiffness => true,
            CommandCode::SetAngularHolding => true,
            CommandCode::SetFilterPositionCount => true,
            _ => false,
        }
    }

    pub fn takes_modifiers(self) -> (r: bool)
        ensures
            r == self.has_modifiers(),
    {
        match self {
            CommandCode::MoveDegrees => true,
            CommandCode::MoveRelative => true,
            _ => false,
        }
    }

    pub fn expects_response(self) -> (r: bool)
        ensures
            r == self.has_response(),
    {
        match self {
            CommandCode::QueryStatus => true,
            CommandCode::QueryPosition => true,
            CommandCode::QueryVoltage => true,
            CommandCode::QueryTemperature => true,
            CommandCode::QueryCurrent => true,
            _ => false,
        }
    }

    /// The opcode as bytes.
    pub fn text_bytes(self) -> (r: Vec<u8>)
        ensures
            r@ == self.text(),
    {
        let r = match self {
            CommandCode::Limp => vec![76],  // L
            CommandCode::Halt => vec![72],  // H
            CommandCode::MoveDegrees => vec![68],  // D
            CommandCode::MoveRelative => vec![77, 68],  // MD
            CommandCode::SetLed => vec![76, 69, 68],  // LED
            CommandCode::SetBlinking => vec![67, 76, 66],  // CLB
            CommandCode::SetMotionProfile => vec![69, 77],  // EM
            CommandCode::SetAngularStiffness => vec![65, 83],  // AS
            CommandCode::SetAngularHolding => vec![65, 72],  // AH
            CommandCode::SetFilterPositionCount => vec![70, 80, 67],  // FPC
            CommandCode::QueryStatus => vec![81],  // Q
            CommandCode::QueryPosition => vec![81, 68],  // QD
            CommandCode::QueryVoltage => vec![81, 86],  // QV
            CommandCode::QueryTemperature => vec![81, 84],  // QT
            CommandCode::QueryCurrent => vec![81, 67],  // QC
        };
        assert(r@ =~= self.text());
        r
    }

    /// The command whose opcode is `b[start..end]`, if any.
    pub fn from_text(b: &[u8], start: usize, end: usize) -> (r: Option<CommandCode>)
        requires
            start <= end <= b@.len(),
        ensures
            r matches Some(c) ==> c.text() == b@.subrange(start as int, end as int),
            r is None ==> forall|c: CommandCode| c.text() != b@.subrange(start as int, end as int),
    {
        if same_bytes(b, start, end, &CommandCode::Limp.text_bytes()) {
            Some(CommandCode::Limp)
        } else if same_bytes(b, start, end, &CommandCode::Halt.text_bytes()) {
            Some(CommandCode::Halt)
        } else if same_bytes(b, start, end, &CommandCode::MoveDegrees.text_bytes()) {
            Some(CommandCode::MoveDegrees)
        } else if same_bytes(b, start, end, &CommandCode::MoveRelative.text_bytes()) {
            Some(CommandCode::MoveRelative)
        } else if same_bytes(b, start, end, &CommandCode::SetLed.text_bytes()) {
            Some(CommandCode::SetLed)
        } else if same_bytes(b, start, end, &CommandCode::SetBlinking.text_bytes()) {
            Some(CommandCode::SetBlinking)
        } else if same_bytes(b, start, end, &CommandCode::SetMotionProfile.text_bytes()) {
            Some(CommandCode::SetMotionProfile)
        } else if same_bytes(b, start, end, &CommandCode::SetAngularStiffness.text_bytes()) {
            Some(CommandCode::SetAngularStiffness)
        } else if same_bytes(b, start, end, &CommandCode::SetAngularHolding.text_bytes()) {
            Some(CommandCode::SetAngularHolding)
        } else if same_bytes(b, start, end, &CommandCode::SetFilterPositionCount.text_bytes()) {
            Some(CommandCode::SetFilterPositionCount)
        } else if same_bytes(b, start, end, &CommandCode::QueryStatus.text_bytes()) {
            Some(CommandCode::QueryStatus)
        } else if same_bytes(b, start, end, &CommandCode::QueryPosition.text_bytes()) {
            Some(CommandCode::QueryPosition)
        } else if same_bytes(b, start, end, &CommandCode::QueryVoltage.text_bytes()) {
            Some(CommandCode::QueryVoltage)
        } else if same_bytes(b, start, end, &CommandCode::QueryTemperature.text_bytes()) {
            Some(CommandCode::QueryTemperature)
        } else if same_bytes(b, start, end, &CommandCode::QueryCurrent.text_bytes()) {
            Some(CommandCode::QueryCurrent)
        } else {
            None
        }
    }
}

/// Whether `b[start..end]` holds exactly the bytes of `t`.
fn same_bytes(b: &[u8], start: usize, end: usize, t: &Vec<u8>) -> (r: bool)
    requires
        start <= end <= b@.len(),
    ensures
        r == (b@.subrange(start as int, end as int) == t@),
{
    if end - start != t.len() {
        return false;
    }
    let mut i: usize = 0;
    while i < t.len()
        invariant
            end - start == t@.len(),
            start <= end <= b@.len(),
            i <= t@.len(),
            b@.subrange(start as int, start + i) == t@.subrange(0, i as int),
        decreases t@.len() - i,
    {
        if b[start + i] != t[i] {
            assert(b@.subrange(start as int, end as int)[i as int] != t@[i as int]);
            return false;
        }
        assert(b@.subrange(start as int, start + i + 1) =~= b@.subrange(start as int, start + i).push(
            b@[start + i],
        ));
        assert(t@.subrange(0, i + 1) =~= t@.subrange(0, i as int).push(t@[i as int]));
        i = i + 1;
    }
    assert(t@.subrange(0, i as int) =~= t@);
    true
}

/// Bytes of the optional value of a frame.
pub open spec fn value_bytes(value: Option<i32>) -> Seq<u8> {
    match value {
        Some(v) => signed_dec_bytes(v as int),
        None => Seq::empty(),
    }
}

/// Whether `command` may be sent with this value and this many modifiers:
/// a value exactly when the command takes one, and modifiers only where the
/// command accepts them.
pub open spec fn usage_ok(command: CommandCode, value: Option<i32>, n_modifiers: nat) -> bool {
    &&& (value is Some) == command.has_value()
    &&& (n_modifiers > 0 ==> command.has_modifiers())
}

/// The request frame: marker, device id, opcode, value, modifier suffixes,
/// delimiter.
pub open spec fn request_bytes(
    device_id: nat,
    command: CommandCode,
    value: Option<i32>,
    modifiers: Seq<CommandModifier>,
) -> Seq<u8> {
    seq![REQUEST_MARKER] + dec_bytes(device_id) + command.text() + value_bytes(value) + encode_utf8(
        CommandModifier::list_text(modifiers),
    ) + seq![DELIMITER]
}

/// Builds the request frame for `command` to `device_id`.
pub fn build_frame(
    device_id: u8,
    command: CommandCode,
    value: Option<i32>,
    modifiers: &[CommandModifier],
) -> (r: Result<Vec<u8>, LssDriverError>)
    ensures
        r is Ok <==> device_id <= BROADCAST_ID && usage_ok(command, value, modifiers@.len()),
        r matches Ok(f) ==> f@ == request_bytes(device_id as nat, command, value, modifiers@),
        r matches Err(e) ==> if device_id > BROADCAST_ID {
            e is InvalidAddress
        } else {
            e is InvalidCommandUsage
        },
{
    if device_id > BROADCAST_ID {
        return Err(LssDriverError::InvalidAddress);
    }
    if value.is_some() != command.takes_value() || (modifiers.len() > 0
        && !command.takes_modifiers()) {
        return Err(LssDriverError::InvalidCommandUsage);
    }
    let mut out: Vec<u8> = Vec::new();
    out.push(REQUEST_MARKER);
    push_dec(&mut out, device_id as u128);
    let code = command.text_bytes();
    let mut i: usize = 0;
    let ghost head = out@;
    while i < code.len()
        invariant
            i <= code@.len(),
            out@ == head + code@.subrange(0, i as int),
        decreases code@.len() - i,
    {
        assert(code@.subrange(0, i + 1) =~= code@.subrange(0, i as int).push(code@[i as int]));
        out.push(code[i]);
        i = i + 1;
    }
    assert(code@.subrange(0, i as int) =~= code@);
    match value {
        Some(v) => push_signed_dec(&mut out, v),
        None => {},
    }
    let text = CommandModifier::vec_to_msg(modifiers);
    let suffix = text.as_str().as_bytes();
    let ghost head = out@;
    let mut j: usize = 0;
    while j < suffix.len()
        invariant
            j <= suffix@.len(),
            out@ == head + suffix@.subrange(0, j as int),
        decreases suffix@.len() - j,
    {
        assert(suffix@.subrange(0, j + 1) =~= suffix@.subrange(0, j as int).push(suffix@[j as int]));
        out.push(suffix[j]);
        j = j + 1;
    }
    assert(suffix@.subrange(0, j as int) =~= suffix@);
    out.push(DELIMITER);
    assert(out@ =~= request_bytes(device_id as nat, command, value, modifiers@));
    Ok(out)
}

pub open spec fn is_letter(b: u8) -> bool {
    65 <= b <= 90
}

/// Every opcode is one to three upper-case letters.
pub proof fn lemma_text_letters(c: CommandCode)
    ensures
        1 <= c.text().len() <= 3,
        forall|i: int| 0 <= i < c.text().len() ==> is_letter(#[trigger] c.text()[i]),
{
}

/// Distinct commands have distinct opcodes.
pub proof fn lemma_text_injective(c1: CommandCode, c2: CommandCode)
    requires
        c1.text() == c2.text(),
    ensures
        c1 == c2,
{
    let t1 = c1.text();
    let t2 = c2.text();
    assert(t1.len() == t2.len());
    assert(t1[0] == t2[0]);
    if t1.len() > 1 {
        assert(t1[1] == t2[1]);
    }
    if t1.len() > 2 {
        assert(t1[2] == t2[2]);
    }
}

/// End of the run of upper-case letters that starts at `start`.
fn scan_letters(b: &[u8], start: usize) -> (end: usize)
    requires
        start <= b@.len(),
    ensures
        start <= end <= b@.len(),
        forall|i: int| start <= i < end ==> is_letter(#[trigger] b@[i]),
        end == b@.len() || !is_letter(b@[end as int]),
{
    let mut end = start;
    while end < b.len() && 65 <= b[end] && b[end] <= 90
        invariant
            start <= end <= b@.len(),
            forall|i: int| start <= i < end ==> is_letter(#[trigger] b@[i]),
        decreases b@.len() - end,
    {
        end = end + 1;
    }
    end
}

/// A response of a device: its id, the command it answers and the value.
#[derive(Copy, Clone, Debug, PartialEq, Eq, Structural)]
pub struct ParsedResponse {
    pub device_id: u8,
    pub command: CommandCode,
    pub value: i32,
}

impl ParsedResponse {
    /// The response frame: marker, device id, opcode, signed value,
    /// delimiter.
    pub open spec fn frame(self) -> Seq<u8> {
        seq![RESPONSE_MARKER] + dec_bytes(self.device_id as nat) + self.command.text()
            + signed_dec_bytes(self.value as int) + seq![DELIMITER]
    }

    /// A response comes from an individual device, never from the broadcast id.
    pub open spec fn wf(self) -> bool {
        self.device_id <= MAX_DEVICE_ID
    }
}

/// Magnitude of a value.
pub open spec fn magnitude(v: int) -> nat {
    if v < 0 {
        (-v) as nat
    } else {
        v as nat
    }
}

/// Where the parts of a response frame stand.
proof fn lemma_response_layout(p: ParsedResponse)
    ensures
        ({
            let s = p.frame();
            let a = dec_bytes(p.device_id as nat).len() as int;
            let c = p.command.text().len() as int;
            let vs = if p.value < 0 {
                1 + a + c + 1
            } else {
                1 + a + c
            };
            let m = dec_bytes(magnitude(p.value as int));
            &&& a >= 1 && c >= 1 && m.len() >= 1
            &&& s.len() == vs + m.len() + 1
            &&& s[0] == RESPONSE_MARKER
            &&& s.subrange(1, 1 + a) == dec_bytes(p.device_id as nat)
            &&& forall|i: int| 1 <= i < 1 + a ==> is_digit(#[trigger] s[i])
            &&& s.subrange(1 + a, 1 + a + c) == p.command.text()
            &&& forall|i: int| 1 + a <= i < 1 + a + c ==> is_letter(#[trigger] s[i])
            &&& (s[1 + a + c] == MINUS_SIGN) == (p.value < 0)
            &&& !is_letter(s[1 + a + c])
            &&& s.subrange(vs, vs + m.len()) == m
            &&& forall|i: int| vs <= i < vs + m.len() ==> is_digit(#[trigger] s[i])
            &&& s[vs + m.len()] == DELIMITER
            &&& canonical_digits(dec_bytes(p.device_id as nat))
            &&& digits_value(dec_bytes(p.device_id as nat)) == p.device_id
            &&& canonical_digits(m)
            &&& digits_value(m) == magnitude(p.value as int)
        }),
{
    let s = p.frame();
    let d = dec_bytes(p.device_id as nat);
    let t = p.command.text();
    let m = dec_bytes(magnitude(p.value as int));
    lemma_dec_bytes_canonical(p.device_id as nat);
    lemma_dec_bytes_canonical(magnitude(p.value as int));
    lemma_text_letters(p.command);
    let a = d.len() as int;
    let c = t.len() as int;
    let sign: Seq<u8> = if p.value < 0 {
        seq![MINUS_SIGN]
    } else {
        Seq::empty()
    };
    assert(signed_dec_bytes(p.value as int) =~= sign + m);
    assert(s =~= seq![RESPONSE_MARKER] + d + t + sign + m + seq![DELIMITER]);
    let vs = 1 + a + c + sign.len();
    assert(s.subrange(1, 1 + a) =~= d);
    assert(s.subrange(1 + a, 1 + a + c) =~= t);
    assert(s.subrange(vs, vs + m.len()) =~= m);
    assert forall|i: int| 1 <= i < 1 + a implies is_digit(#[trigger] s[i]) by {
        assert(s[i] == d[i - 1]);
    }
    assert forall|i: int| 1 + a <= i < 1 + a + c implies is_letter(#[trigger] s[i]) by {
        assert(s[i] == t[i - 1 - a]);
    }
    assert forall|i: int| vs <= i < vs + m.len() implies is_digit(#[trigger] s[i]) by {
        assert(s[i] == m[i - vs]);
    }
    if p.value >= 0 {
        assert(s[1 + a + c] == m[0]);
    }
}

/// Scanning a response frame by maximal runs of digits and letters finds its
/// parts where they stand.
proof fn lemma_parse_complete(
    b: Seq<u8>,
    p: ParsedResponse,
    id_end: int,
    code_end: int,
    neg: bool,
    vstart: int,
    vend: int,
)
    requires
        p.frame() == b,
        1 <= id_end <= b.len(),
        all_digits(b.subrange(1, id_end)),
        id_end == b.len() || !is_digit(b[id_end]),
        id_end <= code_end <= b.len(),
        forall|i: int| id_end <= i < code_end ==> is_letter(#[trigger] b[i]),
        code_end == b.len() || !is_letter(b[code_end]),
        neg == (code_end < b.len() && b[code_end] == MINUS_SIGN),
        vstart == if neg {
            code_end + 1
        } else {
            code_end
        },
        vstart <= vend <= b.len(),
        all_digits(b.subrange(vstart, vend)),
        vend == b.len() || !is_digit(b[vend]),
    ensures
        canonical_digits(b.subrange(1, id_end)),
        digits_value(b.subrange(1, id_end)) == p.device_id,
        p.command.text() == b.subrange(id_end, code_end),
        neg == (p.value < 0),
        canonical_digits(b.subrange(vstart, vend)),
        digits_value(b.subrange(vstart, vend)) == magnitude(p.value as int),
        vend < b.len(),
        b[vend] == DELIMITER,
        vend + 1 == b.len(),
{
    lemma_response_layout(p);
    let a = dec_bytes(p.device_id as nat).len() as int;
    let c = p.command.text().len() as int;
    let m = dec_bytes(magnitude(p.value as int));
    let vs = if p.value < 0 {
        1 + a + c + 1
    } else {
        1 + a + c
    };
    if id_end < 1 + a {
        assert(is_digit(b[id_end]));
    }
    if id_end > 1 + a {
        assert(b.subrange(1, id_end)[a] == b[1 + a]);
        assert(is_letter(b[1 + a]));
    }
    assert(id_end == 1 + a);
    if code_end < 1 + a + c {
        assert(is_letter(b[code_end]));
    }
    if code_end > 1 + a + c {
        assert(is_letter(b[1 + a + c]));
    }
    assert(code_end == 1 + a + c);
    assert(vstart == vs);
    if vend < vs + m.len() {
        assert(is_digit(b[vend]));
    }
    if vend > vs + m.len() {
        assert(b.subrange(vstart, vend)[m.len() as int] == b[vs + m.len()]);
    }
    assert(vend == vs + m.len());
}

/// Distinct responses have distinct frames.
pub proof fn lemma_frame_injective(p: ParsedResponse, q: ParsedResponse)
    requires
        p.frame() == q.frame(),
    ensures
        p == q,
{
    lemma_response_layout(p);
    lemma_response_layout(q);
    let s = p.frame();
    let ap = dec_bytes(p.device_id as nat).len() as int;
    let aq = dec_bytes(q.device_id as nat).len() as int;
    if ap < aq {
        assert(is_letter(s[1 + ap]) && is_digit(s[1 + ap]));
    }
    if aq < ap {
        assert(is_letter(s[1 + aq]) && is_digit(s[1 + aq]));
    }
    let cp = p.command.text().len() as int;
    let cq = q.command.text().len() as int;
    if cp < cq {
        assert(is_letter(s[1 + ap + cp]));
    }
    if cq < cp {
        assert(is_letter(s[1 + ap + cq]));
    }
    lemma_text_injective(p.command, q.command);
    let mp = dec_bytes(magnitude(p.value as int));
    let mq = dec_bytes(magnitude(q.value as int));
    assert(mp =~= s.subrange(s.len() - 1 - mp.len(), s.len() - 1));
    let vs = 1 + ap + cp + if p.value < 0 { 1int } else { 0int };
    assert(s.len() == vs + mp.len() + 1);
    assert(s.len() == vs + mq.len() + 1);
    assert(mp == mq);
}

/// A response frame cut short by its last byte is the frame of no response,
/// so `parse_frame` rejects it.
pub proof fn lemma_truncated_frame_rejected(p: ParsedResponse, q: ParsedResponse)
    ensures
        q.frame() != p.frame().drop_last(),
{
    lemma_response_layout(p);
    lemma_response_layout(q);
    let s = p.frame();
    let t = s.drop_last();
    if q.frame() == t {
        assert(q.frame()[q.frame().len() - 1] == DELIMITER);
        assert(t[t.len() - 1] == s[s.len() - 2]);
        assert(is_digit(s[s.len() - 2]));
    }
}

/// The parts found by scanning a frame make up the response they describe.
proof fn lemma_parse_sound(
    b: Seq<u8>,
    p: ParsedResponse,
    id_end: int,
    code_end: int,
    neg: bool,
    vstart: int,
    vend: int,
)
    requires
        b.len() >= 1,
        b[0] == RESPONSE_MARKER,
        1 <= id_end <= code_end,
        vstart == if neg {
            code_end + 1
        } else {
            code_end
        },
        vstart <= vend,
        vend + 1 == b.len(),
        b[vend] == DELIMITER,
        neg ==> b[code_end] == MINUS_SIGN,
        canonical_digits(b.subrange(1, id_end)),
        digits_value(b.subrange(1, id_end)) == p.device_id,
        p.command.text() == b.subrange(id_end, code_end),
        canonical_digits(b.subrange(vstart, vend)),
        digits_value(b.subrange(vstart, vend)) == magnitude(p.value as int),
        neg == (p.value < 0),
    ensures
        p.frame() == b,
{
    lemma_canonical_digits_dec(b.subrange(1, id_end));
    lemma_canonical_digits_dec(b.subrange(vstart, vend));
    let sign: Seq<u8> = if neg {
        seq![MINUS_SIGN]
    } else {
        Seq::empty()
    };
    assert(signed_dec_bytes(p.value as int) =~= sign + dec_bytes(magnitude(p.value as int)));
    assert(b =~= seq![RESPONSE_MARKER] + b.subrange(1, id_end) + b.subrange(id_end, code_end) + sign
        + b.subrange(vstart, vend) + seq![DELIMITER]);
}

/// Parses a response frame. Exactly the frames of well-formed responses are
/// accepted; anything else is rejected with the raw text.
pub fn parse_frame(bytes: &[u8]) -> (r: Result<ParsedResponse, LssDriverError>)
    ensures
        r matches Ok(p) ==> p.wf() && p.frame() == bytes@,
        r matches Ok(p) ==> forall|q: ParsedResponse| q.wf() && q.frame() == bytes@ ==> q == p,
        r is Err ==> forall|p: ParsedResponse| p.wf() ==> p.frame() != bytes@,
        r matches Err(e) ==> (e matches LssDriverError::PacketParsingError(m) && m@ == ascii_chars(
            bytes@,
        )),
{
    let n = bytes.len();
    if n == 0 || bytes[0] != RESPONSE_MARKER {
        proof {
            assert forall|p: ParsedResponse| p.wf() implies p.frame() != bytes@ by {
                lemma_response_layout(p);
            }
        }
        return Err(raw_text_error(bytes));
    }
    let id_end = scan_digits(bytes, 1);
    let id = canonical_value(bytes, 1, id_end, MAX_DEVICE_ID as u64);
    let code_end = scan_letters(bytes, id_end);
    let code = CommandCode::from_text(bytes, id_end, code_end);
    let neg = code_end < n && bytes[code_end] == MINUS_SIGN;
    let vstart = if neg {
        code_end + 1
    } else {
        code_end
    };
    let vend = scan_digits(bytes, vstart);
    let limit: u64 = if neg {
        0x8000_0000
    } else {
        0x7fff_ffff
    };
    let mag = canonical_value(bytes, vstart, vend, limit);
    match (id, code, mag) {
        (Some(id), Some(code), Some(mag)) => {
            if vend < n && bytes[vend] == DELIMITER && vend + 1 == n && !(neg && mag == 0) {
                let value: i32 = if neg {
                    (0 - (mag as i64)) as i32
                } else {
                    mag as i32
                };
                let p = ParsedResponse { device_id: id as u8, command: code, value };
                proof {
                    lemma_parse_sound(bytes@, p, id_end as int, code_end as int, neg, vstart as int, vend as int);
                    assert forall|q: ParsedResponse| q.frame() == bytes@ implies q == p by {
                        lemma_frame_injective(p, q);
                    }
                }
                return Ok(p);
            }
        },
        _ => {},
    }
    proof {
        assert forall|p: ParsedResponse| p.wf() implies p.frame() != bytes@ by {
            if p.frame() == bytes@ {
                lemma_parse_complete(bytes@, p, id_end as int, code_end as int, neg, vstart as int, vend as int);
                assert(magnitude(p.value as int) <= limit);
            }
        }
    }
    Err(raw_text_error(bytes))
}

/// Relies on `String::push`: the character is appended at the end.
#[verifier::external_body]
fn push_char(s: &mut String, c: char)
    ensures
        final(s)@ == old(s)@.push(c),
{
    s.push(c);
}

/// The parse error that carries the rejected bytes, one character each.
pub(crate) fn raw_text_error(bytes: &[u8]) -> (r: LssDriverError)
    ensures
        r matches LssDriverError::PacketParsingError(m) && m@ == ascii_chars(bytes@),
{
    let mut m = String::new();
    let mut i: usize = 0;
    while i < bytes.len()
        invariant
            i <= bytes@.len(),
            m@ == ascii_chars(bytes@.subrange(0, i as int)),
        decreases bytes@.len() - i,
    {
        push_char(&mut m, bytes[i] as char);
        assert(ascii_chars(bytes@.subrange(0, i + 1)) =~= ascii_chars(bytes@.subrange(0, i as int)).push(
            bytes@[i as int] as char,
        ));
        i = i + 1;
    }
    assert(bytes@.subrange(0, i as int) =~= bytes@);
    LssDriverError::PacketParsingError(m)
}

} // verus!
