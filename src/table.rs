use vstd::prelude::*;
use vstd::string::StringExecFns;
use crate::text::{decimal, push_char, push_decimal};

verus! {

/// The states of the scanner.
#[derive(Clone, Copy, PartialEq, Eq, Structural)]
pub enum JsonState {
    Start,
    ObjState,
    ObjName,
    ObjData,
    NumValue,
    MantissaValue,
    ExpNumValue,
    ExpNameSep,
    ExpExpValue,
    ObjExpEnd,
    NegExpNum,
    ArrState,
    NegNum,
    ArrNext,
    EscValue,
    EscName,
    UniDigVal,
    UniDigName,
    BoolT,
    BoolR,
    BoolU,
    BoolF,
    BoolA,
    BoolL,
    BoolS,
    NulN,
    NulU,
    NulL,
}

/// What the scanner does with one character in one state.
#[derive(Clone, Copy, PartialEq, Eq, Structural)]
pub enum Act {
    /// Move to the state, nothing else.
    Goto(JsonState),
    /// Append the character to the member name, then move to the state.
    PushName(char, JsonState),
    /// Append the character to the string value, then move to the state.
    PushValue(char, JsonState),
    /// Append a backslash and the character to the member name, then read the name on.
    PushNameEscaped(char),
    /// Append a backslash and the character to the string value, then read the value on.
    PushValueEscaped(char),
    /// Begin a string value.
    OpenText,
    /// Begin a member name.
    OpenName,
    /// Begin an object.
    OpenObject,
    /// Begin a `\u` escape, read in the given state.
    OpenHex(JsonState),
    /// One hexadecimal digit of a `\u` escape.
    HexDigit(u32),
    /// A character of a `\u` escape that is no hexadecimal digit.
    BadHexDigit,
    /// Begin a number with its first integer digit and its sign.
    StartNumber(u8, bool),
    IntDigit(u8),
    FracDigit(u8),
    /// Begin an exponent with its first digit and its sign.
    StartExponent(u8, bool),
    ExpDigit(u8),
    /// Finish with the string value.
    ReturnText,
    /// Finish with the number read so far.
    ReturnNumber,
    /// Finish with the array read so far.
    ReturnArray,
    /// Finish with the object read so far, handing back NUL as terminator.
    ReturnObject,
    ReturnTrue,
    ReturnFalse,
    ReturnNull,
    ReturnAbsent,
    /// Read elements while each ends in a comma; `]` after one finishes the array. The flag
    /// says whether any other end leads to `ArrState` (else to `ArrNext`).
    ReadElements(bool),
    /// Read the value of the current member.
    ReadMember,
    /// Finish with a diagnostic.
    Fail,
}

pub open spec fn is_ws(c: char) -> bool {
    c == ' ' || c == '\t' || c == '\r' || c == '\n'
}

pub open spec fn is_digit(c: char) -> bool {
    '0' <= c <= '9'
}

pub open spec fn is_hex(c: char) -> bool {
    is_digit(c) || ('a' <= c <= 'f') || ('A' <= c <= 'F')
}

pub open spec fn digit_of(c: char) -> u8 {
    (c as u32 - '0' as u32) as u8
}

pub open spec fn hex_of(c: char) -> u32 {
    if is_digit(c) {
        (c as u32 - '0' as u32) as u32
    } else if 'a' <= c <= 'f' {
        (c as u32 - 'a' as u32 + 10) as u32
    } else {
        (c as u32 - 'A' as u32 + 10) as u32
    }
}

pub open spec fn is_number_state(st: JsonState) -> bool {
    st == JsonState::NumValue || st == JsonState::MantissaValue || st == JsonState::ExpNumValue
}

/// The transition table of the scanner.
/// In `ArrState`, a `[` reads elements into the array being built, just as a `,` does there.
pub open spec fn action(st: JsonState, c: char) -> Act {
    match st {
        JsonState::ObjName => if c == '"' {
            Act::Goto(JsonState::ExpNameSep)
        } else if c == '\\' {
            Act::Goto(JsonState::EscName)
        } else {
            Act::PushName(c, JsonState::ObjName)
        },
        JsonState::ObjData => if c == '"' {
            Act::ReturnText
        } else if c == '\\' {
            Act::Goto(JsonState::EscValue)
        } else {
            Act::PushValue(c, JsonState::ObjData)
        },
        JsonState::EscName => if c == '"' || c == '\\' || c == '/' {
            Act::PushName(c, JsonState::ObjName)
        } else if c == 't' {
            Act::PushName('\t', JsonState::ObjName)
        } else if c == 'r' {
            Act::PushName('\r', JsonState::ObjName)
        } else if c == 'n' {
            Act::PushName('\n', JsonState::ObjName)
        } else if c == 'f' {
            Act::PushName('\x0c', JsonState::ObjName)
        } else if c == 'b' {
            Act::PushName('\x08', JsonState::ObjName)
        } else if c == 'u' || c == 'U' {
            Act::OpenHex(JsonState::UniDigName)
        } else {
            Act::PushNameEscaped(c)
        },
        JsonState::EscValue => if c == '"' || c == '\\' || c == '/' {
            Act::PushValue(c, JsonState::ObjData)
        } else if c == 't' {
            Act::PushValue('\t', JsonState::ObjData)
        } else if c == 'r' {
            Act::PushValue('\r', JsonState::ObjData)
        } else if c == 'n' {
            Act::PushValue('\n', JsonState::ObjData)
        } else if c == 'f' {
            Act::PushValue('\x0c', JsonState::ObjData)
        } else if c == 'b' {
            Act::PushValue('\x08', JsonState::ObjData)
        } else if c == 'u' || c == 'U' {
            Act::OpenHex(JsonState::UniDigVal)
        } else {
            Act::PushValueEscaped(c)
        },
        JsonState::UniDigVal | JsonState::UniDigName => if is_hex(c) {
            Act::HexDigit(hex_of(c))
        } else {
            Act::BadHexDigit
        },
        JsonState::Start => if c == '"' {
            Act::OpenText
        } else if is_ws(c) {
            Act::Goto(JsonState::Start)
        } else if c == '[' {
            Act::ReadElements(true)
        } else if c == '{' {
            Act::OpenObject
        } else if c == ']' {
            Act::Goto(JsonState::ArrState)
        } else if c == '}' {
            Act::ReturnAbsent
        } else if is_digit(c) {
            Act::StartNumber(digit_of(c), false)
        } else if c == '-' {
            Act::Goto(JsonState::NegNum)
        } else if c == 't' {
            Act::Goto(JsonState::BoolT)
        } else if c == 'f' {
            Act::Goto(JsonState::BoolF)
        } else if c == 'n' {
            Act::Goto(JsonState::NulN)
        } else {
            Act::Fail
        },
        _ => if c == '"' && st == JsonState::ObjState {
            Act::OpenName
        } else if is_ws(c) && (st == JsonState::ArrState || st == JsonState::ArrNext
            || st == JsonState::ObjState || st == JsonState::ObjExpEnd
            || st == JsonState::ExpNameSep) {
            Act::Goto(st)
        } else if is_ws(c) && is_number_state(st) {
            Act::ReturnNumber
        } else if c == '[' && st == JsonState::ArrState {
            Act::ReadElements(true)
        } else if c == ':' && st == JsonState::ExpNameSep {
            Act::ReadMember
        } else if (c == ']' || c == '}' || c == ',') && is_number_state(st) {
            Act::ReturnNumber
        } else if c == ']' && (st == JsonState::ArrState || st == JsonState::ArrNext) {
            Act::ReturnArray
        } else if c == '}' && st == JsonState::ObjExpEnd {
            Act::ReturnObject
        } else if c == '}' && st == JsonState::ObjState {
            Act::ReturnAbsent
        } else if is_digit(c) && st == JsonState::NumValue {
            Act::IntDigit(digit_of(c))
        } else if is_digit(c) && st == JsonState::MantissaValue {
            Act::FracDigit(digit_of(c))
        } else if is_digit(c) && st == JsonState::ExpNumValue {
            Act::ExpDigit(digit_of(c))
        } else if is_digit(c) && st == JsonState::NegExpNum {
            Act::StartExponent(digit_of(c), true)
        } else if is_digit(c) && st == JsonState::ExpExpValue {
            Act::StartExponent(digit_of(c), false)
        } else if is_digit(c) && st == JsonState::NegNum {
            Act::StartNumber(digit_of(c), true)
        } else if is_digit(c) && st == JsonState::ArrState {
            Act::StartNumber(digit_of(c), false)
        } else if c == '.' && st == JsonState::NumValue {
            Act::Goto(JsonState::MantissaValue)
        } else if c == '-' && st == JsonState::ExpExpValue {
            Act::Goto(JsonState::NegExpNum)
        } else if (c == 'e' || c == 'E') && (st == JsonState::NumValue || st == JsonState::MantissaValue) {
            Act::Goto(JsonState::ExpExpValue)
        } else if c == 'e' && st == JsonState::BoolU {
            Act::ReturnTrue
        } else if c == 'e' && st == JsonState::BoolS {
            Act::ReturnFalse
        } else if c == ',' && st == JsonState::ObjExpEnd {
            Act::Goto(JsonState::ObjState)
        } else if c == ',' && st == JsonState::ArrState {
            Act::ReadElements(false)
        } else if c == ',' && st == JsonState::ArrNext {
            Act::ReadElements(true)
        } else if c == 'r' && st == JsonState::BoolT {
            Act::Goto(JsonState::BoolR)
        } else if c == 'u' && st == JsonState::BoolR {
            Act::Goto(JsonState::BoolU)
        } else if c == 'u' && st == JsonState::NulN {
            Act::Goto(JsonState::NulU)
        } else if c == 'a' && st == JsonState::BoolF {
            Act::Goto(JsonState::BoolA)
        } else if c == 'l' && st == JsonState::BoolA {
            Act::Goto(JsonState::BoolL)
        } else if c == 'l' && st == JsonState::NulU {
            Act::Goto(JsonState::NulL)
        } else if c == 'l' && st == JsonState::NulL {
            Act::ReturnNull
        } else if c == 's' && st == JsonState::BoolL {
            Act::Goto(JsonState::BoolS)
        } else {
            Act::Fail
        },
    }
}


fn ws(c: char) -> (r: bool)
    ensures
        r == is_ws(c),
{
    c == ' ' || c == '\t' || c == '\r' || c == '\n'
}

fn digit(c: char) -> (r: bool)
    ensures
        r == is_digit(c),
{
    '0' <= c && c <= '9'
}

fn hex(c: char) -> (r: bool)
    ensures
        r == is_hex(c),
{
    digit(c) || ('a' <= c && c <= 'f') || ('A' <= c && c <= 'F')
}

fn digit_val(c: char) -> (r: u8)
    requires
        is_digit(c),
    ensures
        r == digit_of(c),
        r < 10,
{
    (c as u32 - '0' as u32) as u8
}

fn hex_val(c: char) -> (r: u32)
    requires
        is_hex(c),
    ensures
        r == hex_of(c),
        r < 16,
{
    if digit(c) {
        c as u32 - '0' as u32
    } else if 'a' <= c && c <= 'f' {
        c as u32 - 'a' as u32 + 10
    } else {
        c as u32 - 'A' as u32 + 10
    }
}

fn number_state(st: JsonState) -> (r: bool)
    ensures
        r == is_number_state(st),
{
    st == JsonState::NumValue || st == JsonState::MantissaValue || st == JsonState::ExpNumValue
}

/// The transition table of the scanner, as it runs.
pub fn act(st: JsonState, c: char) -> (a: Act)
    ensures
        a == action(st, c),
{
    match st {
        JsonState::ObjName => if c == '"' {
            Act::Goto(JsonState::ExpNameSep)
        } else if c == '\\' {
            Act::Goto(JsonState::EscName)
        } else {
            Act::PushName(c, JsonState::ObjName)
        },
        JsonState::ObjData => if c == '"' {
            Act::ReturnText
        } else if c == '\\' {
            Act::Goto(JsonState::EscValue)
        } else {
            Act::PushValue(c, JsonState::ObjData)
        },
        JsonState::EscName => if c == '"' || c == '\\' || c == '/' {
            Act::PushName(c, JsonState::ObjName)
        } else if c == 't' {
            Act::PushName('\t', JsonState::ObjName)
        } else if c == 'r' {
            Act::PushName('\r', JsonState::ObjName)
        } else if c == 'n' {
            Act::PushName('\n', JsonState::ObjName)
        } else if c == 'f' {
            Act::PushName('\x0c', JsonState::ObjName)
        } else if c == 'b' {
            Act::PushName('\x08', JsonState::ObjName)
        } else if c == 'u' || c == 'U' {
            Act::OpenHex(JsonState::UniDigName)
        } else {
            Act::PushNameEscaped(c)
        },
        JsonState::EscValue => if c == '"' || c == '\\' || c == '/' {
            Act::PushValue(c, JsonState::ObjData)
        } else if c == 't' {
            Act::PushValue('\t', JsonState::ObjData)
        } else if c == 'r' {
            Act::PushValue('\r', JsonState::ObjData)
        } else if c == 'n' {
            Act::PushValue('\n', JsonState::ObjData)
        } else if c == 'f' {
            Act::PushValue('\x0c', JsonState::ObjData)
        } else if c == 'b' {
            Act::PushValue('\x08', JsonState::ObjData)
        } else if c == 'u' || c == 'U' {
            Act::OpenHex(JsonState::UniDigVal)
        } else {
            Act::PushValueEscaped(c)
        },
        JsonState::UniDigVal | JsonState::UniDigName => if hex(c) {
            Act::HexDigit(hex_val(c))
        } else {
            Act::BadHexDigit
        },
        JsonState::Start => if c == '"' {
            Act::OpenText
        } else if ws(c) {
            Act::Goto(JsonState::Start)
        } else if c == '[' {
            Act::ReadElements(true)
        } else if c == '{' {
            Act::OpenObject
        } else if c == ']' {
            Act::Goto(JsonState::ArrState)
        } else if c == '}' {
            Act::ReturnAbsent
        } else if digit(c) {
            Act::StartNumber(digit_val(c), false)
        } else if c == '-' {
            Act::Goto(JsonState::NegNum)
        } else if c == 't' {
            Act::Goto(JsonState::BoolT)
        } else if c == 'f' {
            Act::Goto(JsonState::BoolF)
        } else if c == 'n' {
            Act::Goto(JsonState::NulN)
        } else {
            Act::Fail
        },
        _ => if c == '"' && st == JsonState::ObjState {
            Act::OpenName
        } else if ws(c) && (st == JsonState::ArrState || st == JsonState::ArrNext
            || st == JsonState::ObjState || st == JsonState::ObjExpEnd
            || st == JsonState::ExpNameSep) {
            Act::Goto(st)
        } else if ws(c) && number_state(st) {
            Act::ReturnNumber
        } else if c == '[' && st == JsonState::ArrState {
            Act::ReadElements(true)
        } else if c == ':' && st == JsonState::ExpNameSep {
            Act::ReadMember
        } else if (c == ']' || c == '}' || c == ',') && number_state(st) {
            Act::ReturnNumber
        } else if c == ']' && (st == JsonState::ArrState || st == JsonState::ArrNext) {
            Act::ReturnArray
        } else if c == '}' && st == JsonState::ObjExpEnd {
            Act::ReturnObject
        } else if c == '}' && st == JsonState::ObjState {
            Act::ReturnAbsent
        } else if digit(c) && st == JsonState::NumValue {
            Act::IntDigit(digit_val(c))
        } else if digit(c) && st == JsonState::MantissaValue {
            Act::FracDigit(digit_val(c))
        } else if digit(c) && st == JsonState::ExpNumValue {
            Act::ExpDigit(digit_val(c))
        } else if digit(c) && st == JsonState::NegExpNum {
            Act::StartExponent(digit_val(c), true)
        } else if digit(c) && st == JsonState::ExpExpValue {
            Act::StartExponent(digit_val(c), false)
        } else if digit(c) && st == JsonState::NegNum {
            Act::StartNumber(digit_val(c), true)
        } else if digit(c) && st == JsonState::ArrState {
            Act::StartNumber(digit_val(c), false)
        } else if c == '.' && st == JsonState::NumValue {
            Act::Goto(JsonState::MantissaValue)
        } else if c == '-' && st == JsonState::ExpExpValue {
            Act::Goto(JsonState::NegExpNum)
        } else if (c == 'e' || c == 'E') && (st == JsonState::NumValue || st == JsonState::MantissaValue) {
            Act::Goto(JsonState::ExpExpValue)
        } else if c == 'e' && st == JsonState::BoolU {
            Act::ReturnTrue
        } else if c == 'e' && st == JsonState::BoolS {
            Act::ReturnFalse
        } else if c == ',' && st == JsonState::ObjExpEnd {
            Act::Goto(JsonState::ObjState)
        } else if c == ',' && st == JsonState::ArrState {
            Act::ReadElements(false)
        } else if c == ',' && st == JsonState::ArrNext {
            Act::ReadElements(true)
        } else if c == 'r' && st == JsonState::BoolT {
            Act::Goto(JsonState::BoolR)
        } else if c == 'u' && st == JsonState::BoolR {
            Act::Goto(JsonState::BoolU)
        } else if c == 'u' && st == JsonState::NulN {
            Act::Goto(JsonState::NulU)
        } else if c == 'a' && st == JsonState::BoolF {
            Act::Goto(JsonState::BoolA)
        } else if c == 'l' && st == JsonState::BoolA {
            Act::Goto(JsonState::BoolL)
        } else if c == 'l' && st == JsonState::NulU {
            Act::Goto(JsonState::NulL)
        } else if c == 'l' && st == JsonState::NulL {
            Act::ReturnNull
        } else if c == 's' && st == JsonState::BoolL {
            Act::Goto(JsonState::BoolS)
        } else {
            Act::Fail
        },
    }
}

/// The name under which a state appears in diagnostics.
pub open spec fn state_name(st: JsonState) -> Seq<char> {
    match st {
        JsonState::Start => "Start"@,
        JsonState::ObjState => "ObjState"@,
        JsonState::ObjName => "ObjName"@,
        JsonState::ObjData => "ObjData"@,
        JsonState::NumValue => "NumValue"@,
        JsonState::MantissaValue => "MantissaValue"@,
        JsonState::ExpNumValue => "ExpNumValue"@,
        JsonState::ExpNameSep => "ExpNameSep"@,
        JsonState::ExpExpValue => "ExpExpValue"@,
        JsonState::ObjExpEnd => "ObjExpEnd"@,
        JsonState::NegExpNum => "NegExpNum"@,
        JsonState::ArrState => "ArrState"@,
        JsonState::NegNum => "NegNum"@,
        JsonState::ArrNext => "ArrNext"@,
        JsonState::EscValue => "EscValue"@,
        JsonState::EscName => "EscName"@,
        JsonState::UniDigVal => "UniDigVal"@,
        JsonState::UniDigName => "UniDigName"@,
        JsonState::BoolT => "BoolT"@,
        JsonState::BoolR => "BoolR"@,
        JsonState::BoolU => "BoolU"@,
        JsonState::BoolF => "BoolF"@,
        JsonState::BoolA => "BoolA"@,
        JsonState::BoolL => "BoolL"@,
        JsonState::BoolS => "BoolS"@,
        JsonState::NulN => "NulN"@,
        JsonState::NulU => "NulU"@,
        JsonState::NulL => "NulL"@,
    }
}

fn state_str(st: JsonState) -> (r: &'static str)
    ensures
        r@ == state_name(st),
{
    match st {
        JsonState::Start => "Start",
        JsonState::ObjState => "ObjState",
        JsonState::ObjName => "ObjName",
        JsonState::ObjData => "ObjData",
        JsonState::NumValue => "NumValue",
        JsonState::MantissaValue => "MantissaValue",
        JsonState::ExpNumValue => "ExpNumValue",
        JsonState::ExpNameSep => "ExpNameSep",
        JsonState::ExpExpValue => "ExpExpValue",
        JsonState::ObjExpEnd => "ObjExpEnd",
        JsonState::NegExpNum => "NegExpNum",
        JsonState::ArrState => "ArrState",
        JsonState::NegNum => "NegNum",
        JsonState::ArrNext => "ArrNext",
        JsonState::EscValue => "EscValue",
        JsonState::EscName => "EscName",
        JsonState::UniDigVal => "UniDigVal",
        JsonState::UniDigName => "UniDigName",
        JsonState::BoolT => "BoolT",
        JsonState::BoolR => "BoolR",
        JsonState::BoolU => "BoolU",
        JsonState::BoolF => "BoolF",
        JsonState::BoolA => "BoolA",
        JsonState::BoolL => "BoolL",
        JsonState::BoolS => "BoolS",
        JsonState::NulN => "NulN",
        JsonState::NulU => "NulU",
        JsonState::NulL => "NulL",
    }
}

/// The line and the column of the character before position `n` of `s`. Lines count from 1;
/// the column counts the characters since the last line feed, a line feed itself being at
/// column 0.
pub open spec fn line_column(s: Seq<char>, n: int) -> (nat, nat)
    decreases n,
{
    if n <= 0 {
        (1, 0)
    } else {
        let lc = line_column(s, n - 1);
        if s[n - 1] == '\n' {
            (lc.0 + 1, 0)
        } else {
            (lc.0, lc.1 + 1)
        }
    }
}

pub fn line_column_of(s: &Vec<char>, n: usize) -> (r: (u128, u128))
    requires
        n <= s@.len(),
    ensures
        (r.0 as nat, r.1 as nat) == line_column(s@, n as int),
{
    let mut line: u128 = 1;
    let mut col: u128 = 0;
    let mut i: usize = 0;
    while i < n
        invariant
            i <= n <= s@.len(),
            line <= i + 1,
            col <= i,
            (line as nat, col as nat) == line_column(s@, i as int),
        decreases n - i,
    {
        if s[i] == '\n' {
            line = line + 1;
            col = 0;
        } else {
            col = col + 1;
        }
        i = i + 1;
    }
    (line, col)
}

/// The diagnostic for character `c` met in state `st` at the given line and column.
pub open spec fn error_text(st: JsonState, c: char, line: nat, col: nat) -> Seq<char> {
    if c == '.' {
        "an error happened"@
    } else {
        "an error: state "@ + state_name(st) + " for "@ + seq![c] + " at "@ + decimal(col) + ":"@
            + decimal(line)
    }
}

pub fn error_message(st: JsonState, c: char, line: u128, col: u128) -> (r: String)
    ensures
        r@ == error_text(st, c, line as nat, col as nat),
{
    if c == '.' {
        String::from_str("an error happened")
    } else {
        let mut m = String::from_str("an error: state ");
        m.append(state_str(st));
        m.append(" for ");
        push_char(&mut m, c);
        m.append(" at ");
        push_decimal(&mut m, col);
        m.append(":");
        push_decimal(&mut m, line);
        m
    }
}

} // verus!
