use vstd::prelude::*;
use crate::table::{
    act, action, error_message, error_text, line_column, line_column_of, Act, JsonState,
};
use crate::text::push_char;
use crate::value::{
    all_well_formed, lemma_put_member, well_formed,
    items_view, lemma_arr_view, lemma_data_view, names_view, put_member, put_member_in, JsonData,
    JsonNumber, NumberModel, Value,
};

verus! {

/// The working state of one scanner invocation.
pub struct Scan {
    pub state: JsonState,
    /// The string value being read.
    pub value: Seq<char>,
    /// The member name being read.
    pub name: Seq<char>,
    pub num: NumberModel,
    /// The elements of the array being read.
    pub arr: Seq<Value>,
    /// The names and values of the object being read.
    pub keys: Seq<Seq<char>>,
    pub vals: Seq<Value>,
    /// The digits of a `\u` escape read so far, and how many there were.
    pub hex: nat,
    pub hex_len: nat,
    /// Whether a character of the escape was no hexadecimal digit.
    pub hex_bad: bool,
    /// The first half of a surrogate pair.
    pub high: nat,
    /// Whether the next surrogate is taken as the first half of a pair.
    pub first_half: bool,
}

/// What one scanner invocation hands back: a value, the character that ended it, and the
/// position after the last character read.
pub struct Frag {
    pub value: Value,
    pub term: char,
    pub next: int,
}

pub open spec fn empty_number() -> NumberModel {
    NumberModel {
        negative: false,
        integer: Seq::empty(),
        fraction: Seq::empty(),
        exp_negative: false,
        exponent: Seq::empty(),
    }
}

pub open spec fn initial_scan() -> Scan {
    Scan {
        state: JsonState::Start,
        value: Seq::empty(),
        name: Seq::empty(),
        num: empty_number(),
        arr: Seq::empty(),
        keys: Seq::empty(),
        vals: Seq::empty(),
        hex: 0,
        hex_len: 0,
        hex_bad: false,
        high: 0,
        first_half: true,
    }
}

/// A Unicode scalar value: a code point that is not a surrogate.
pub open spec fn is_scalar(n: int) -> bool {
    (0 <= n < 0xD800) || (0xE000 <= n <= 0x10FFFF)
}

/// The code point of a character.
pub open spec fn code(c: char) -> int {
    c as int
}

/// The character with code point `n`.
pub open spec fn char_of(n: int) -> char {
    choose|c: char| #[trigger] code(c) == n
}

/// The character that the UTF-16 pair `hi`, `lo` encodes, or U+FFFD where they are no pair.
pub open spec fn decode_pair(hi: nat, lo: nat) -> char {
    if 0xD800 <= hi <= 0xDBFF && 0xDC00 <= lo <= 0xDFFF {
        char_of(0x10000 + (hi - 0xD800) * 0x400 + (lo - 0xDC00))
    } else {
        '\u{FFFD}'
    }
}

/// Appends `ch` to the string value in state `ObjData`, to the member name otherwise.
pub open spec fn emit(sc: Scan, ch: char) -> Scan {
    if sc.state == JsonState::ObjData {
        Scan { value: sc.value.push(ch), ..sc }
    } else {
        Scan { name: sc.name.push(ch), ..sc }
    }
}

/// One hexadecimal digit of a `\u` escape; the fourth completes it.
pub open spec fn hex_step(sc: Scan, d: nat) -> Scan {
    let v = sc.hex * 16 + d;
    let n = sc.hex_len + 1;
    let back = if sc.state == JsonState::UniDigVal {
        JsonState::ObjData
    } else {
        JsonState::ObjName
    };
    let sc1 = Scan { hex: v, hex_len: n, ..sc };
    if n < 4 {
        sc1
    } else if sc.hex_bad {
        Scan { state: back, ..sc1 }
    } else if is_scalar(v as int) {
        emit(Scan { state: back, ..sc1 }, char_of(v as int))
    } else if sc.first_half {
        Scan { state: back, high: v, first_half: false, ..sc1 }
    } else {
        emit(Scan { state: back, first_half: true, ..sc1 }, decode_pair(sc.high, v))
    }
}

/// A character of a `\u` escape that is no hexadecimal digit: it counts as one of the four,
/// and the escape then adds nothing.
pub open spec fn bad_hex_step(sc: Scan) -> Scan {
    let n = sc.hex_len + 1;
    let back = if sc.state == JsonState::UniDigVal {
        JsonState::ObjData
    } else {
        JsonState::ObjName
    };
    let sc1 = Scan { hex_len: n, hex_bad: true, ..sc };
    if n < 4 {
        sc1
    } else {
        Scan { state: back, ..sc1 }
    }
}

/// The effect of an action that reads no value of its own and does not finish.
pub open spec fn step(sc: Scan, a: Act) -> Scan {
    match a {
        Act::Goto(st) => Scan { state: st, ..sc },
        Act::PushName(c, st) => Scan { state: st, name: sc.name.push(c), ..sc },
        Act::PushValue(c, st) => Scan { state: st, value: sc.value.push(c), ..sc },
        Act::PushNameEscaped(c) => Scan {
            state: JsonState::ObjName,
            name: sc.name.push('\\').push(c),
            ..sc
        },
        Act::PushValueEscaped(c) => Scan {
            state: JsonState::ObjData,
            value: sc.value.push('\\').push(c),
            ..sc
        },
        Act::OpenText => Scan { state: JsonState::ObjData, value: Seq::empty(), ..sc },
        Act::OpenName => Scan { state: JsonState::ObjName, name: Seq::empty(), ..sc },
        Act::OpenObject => Scan {
            state: JsonState::ObjState,
            keys: Seq::empty(),
            vals: Seq::empty(),
            ..sc
        },
        Act::OpenHex(st) => Scan { state: st, hex: 0, hex_len: 0, hex_bad: false, ..sc },
        Act::HexDigit(d) => hex_step(sc, d as nat),
        Act::BadHexDigit => bad_hex_step(sc),
        Act::StartNumber(d, neg) => Scan {
            state: JsonState::NumValue,
            num: NumberModel { negative: neg, integer: seq![d], ..empty_number() },
            ..sc
        },
        Act::IntDigit(d) => Scan { num: NumberModel { integer: sc.num.integer.push(d), ..sc.num }, ..sc },
        Act::FracDigit(d) => Scan {
            num: NumberModel { fraction: sc.num.fraction.push(d), ..sc.num },
            ..sc
        },
        Act::StartExponent(d, neg) => Scan {
            state: JsonState::ExpNumValue,
            num: NumberModel { exp_negative: neg, exponent: seq![d], ..sc.num },
            ..sc
        },
        Act::ExpDigit(d) => Scan {
            num: NumberModel { exponent: sc.num.exponent.push(d), ..sc.num },
            ..sc
        },
        _ => sc,
    }
}

pub open spec fn stuck(p: int) -> Frag {
    Frag { value: Value::Absent, term: '\0', next: p }
}

pub open spec fn is_simple(a: Act) -> bool {
    match a {
        Act::Goto(_) | Act::PushName(_, _) | Act::PushValue(_, _) | Act::PushNameEscaped(_)
        | Act::PushValueEscaped(_) | Act::OpenText | Act::OpenName | Act::OpenObject
        | Act::OpenHex(_) | Act::HexDigit(_) | Act::BadHexDigit | Act::StartNumber(_, _) | Act::IntDigit(_)
        | Act::FracDigit(_) | Act::StartExponent(_, _) | Act::ExpDigit(_) => true,
        _ => false,
    }
}

pub open spec fn is_finish(a: Act) -> bool {
    match a {
        Act::ReturnText | Act::ReturnNumber | Act::ReturnArray | Act::ReturnObject
        | Act::ReturnTrue | Act::ReturnFalse | Act::ReturnNull | Act::ReturnAbsent
        | Act::Fail => true,
        _ => false,
    }
}

/// What an action that finishes hands back, `c` being the character that ended the value and
/// `p` the position after it in `s`.
pub open spec fn finish(s: Seq<char>, sc: Scan, c: char, p: int, a: Act) -> Frag {
    match a {
        Act::ReturnText => Frag { value: Value::Text(sc.value), term: c, next: p },
        Act::ReturnNumber => Frag { value: Value::Num(sc.num), term: c, next: p },
        Act::ReturnArray => Frag { value: Value::Arr(sc.arr), term: c, next: p },
        Act::ReturnObject => Frag { value: Value::Data(sc.keys, sc.vals), term: '\0', next: p },
        Act::ReturnTrue => Frag { value: Value::Bool(true), term: c, next: p },
        Act::ReturnFalse => Frag { value: Value::Bool(false), term: c, next: p },
        Act::ReturnNull => Frag { value: Value::Null, term: c, next: p },
        Act::ReturnAbsent => Frag { value: Value::Absent, term: c, next: p },
        _ => Frag {
            value: Value::Error(error_text(sc.state, c, line_column(s, p).0, line_column(s, p).1)),
            term: '\0',
            next: p,
        },
    }
}

/// After the value of a member: `}` finishes the object, `,` awaits the next member, and
/// anything else awaits one of the two.
pub open spec fn after_member(s: Seq<char>, sc: Scan, c: char, f: Frag) -> Frag
    decreases s.len() - f.next, 2int, 0int,
{
    let kv = put_member(sc.keys, sc.vals, sc.name, f.value);
    let sc2 = Scan { keys: kv.0, vals: kv.1, ..sc };
    if f.term == '}' {
        Frag { value: Value::Data(kv.0, kv.1), term: c, next: f.next }
    } else if f.term == ',' {
        run(s, f.next, Scan { state: JsonState::ObjState, ..sc2 })
    } else {
        run(s, f.next, Scan { state: JsonState::ObjExpEnd, ..sc2 })
    }
}

/// Reads on from position `pos` of `s` in working state `sc` until a value is complete or
/// the input ends.
pub open spec fn run(s: Seq<char>, pos: int, sc: Scan) -> Frag
    decreases s.len() - pos, 1int, 0int,
{
    if pos < 0 || pos >= s.len() {
        Frag { value: Value::Absent, term: '\0', next: pos }
    } else {
        let c = s[pos];
        let p = pos + 1;
        let a = action(sc.state, c);
        match a {
            Act::ReadMember => {
                let f = run(s, p, initial_scan());
                if p <= f.next <= s.len() {
                    after_member(s, sc, c, f)
                } else {
                    stuck(p)
                }
            },
            Act::ReadElements(first) => elements(s, p, sc, c, first),
            _ => if is_simple(a) {
                run(s, p, step(sc, a))
            } else {
                finish(s, sc, c, p, a)
            },
        }
    }
}

/// Reads array elements from position `p` while each one ends in a comma. An element that
/// ends in `]` finishes the array, handing back `ret`; any other end returns to the
/// character-driven states.
pub open spec fn elements(s: Seq<char>, p: int, sc: Scan, ret: char, first: bool) -> Frag
    decreases s.len() - p, 2int, 0int,
{
    if p < 0 || p > s.len() {
        stuck(p)
    } else {
        let f = run(s, p, initial_scan());
        if !(p <= f.next <= s.len()) {
            stuck(p)
        } else {
            let sc2 = Scan { arr: sc.arr.push(f.value), ..sc };
            if f.term == ']' {
                Frag { value: Value::Arr(sc2.arr), term: ret, next: f.next }
            } else if f.term == ',' {
                if f.next > p {
                    elements(s, f.next, sc2, ret, false)
                } else {
                    stuck(p)
                }
            } else {
                let st = if first {
                    JsonState::ArrState
                } else {
                    JsonState::ArrNext
                };
                run(s, f.next, Scan { state: st, ..sc2 })
            }
        }
    }
}

/// The value that one invocation of the scanner reads from position `pos`.
pub open spec fn fragment(s: Seq<char>, pos: int) -> Frag {
    run(s, pos, initial_scan())
}

/// Relies on `char::from_u32`: it gives the character with that code point exactly when the
/// value is a Unicode scalar value.
#[verifier::external_body]
fn char_from(n: u32) -> (r: Option<char>)
    ensures
        r is Some <==> is_scalar(n as int),
        r matches Some(c) ==> code(c) == n,
{
    char::from_u32(n)
}

proof fn lemma_char_of(c: char)
    ensures
        char_of(code(c)) == c,
{
    let x = char_of(code(c));
    assert(code(x) == code(c));
}

fn decode_utf16_pair(hi: u32, lo: u32) -> (c: char)
    ensures
        c == decode_pair(hi as nat, lo as nat),
{
    if 0xD800 <= hi && hi <= 0xDBFF && 0xDC00 <= lo && lo <= 0xDFFF {
        let cp: u32 = 0x10000 + (hi - 0xD800) * 0x400 + (lo - 0xDC00);
        proof {
            assert(0 <= (hi - 0xD800) * 0x400 <= 0x3FF * 0x400) by (nonlinear_arith)
                requires
                    0xD800 <= hi <= 0xDBFF,
            ;
        }
        match char_from(cp) {
            Some(ch) => {
                proof {
                    lemma_char_of(ch);
                }
                ch
            },
            None => '\u{FFFD}',
        }
    } else {
        '\u{FFFD}'
    }
}

pub open spec fn hex_bound(hex: nat, len: nat) -> bool {
    ||| len == 0 && hex == 0
    ||| len == 1 && hex < 16
    ||| len == 2 && hex < 256
    ||| len == 3 && hex < 4096
}

pub open spec fn in_hex(st: JsonState) -> bool {
    st == JsonState::UniDigVal || st == JsonState::UniDigName
}

/// The working state of one scanner invocation, as it runs.
struct Scanner {
    state: JsonState,
    value: String,
    name: String,
    num: JsonNumber,
    arr: Vec<JsonData>,
    keys: Vec<String>,
    vals: Vec<JsonData>,
    hex: u32,
    hex_len: u32,
    hex_bad: bool,
    high: u32,
    first_half: bool,
}

impl View for Scanner {
    type V = Scan;

    closed spec fn view(&self) -> Scan {
        Scan {
            state: self.state,
            value: self.value@,
            name: self.name@,
            num: self.num@,
            arr: items_view(self.arr@),
            keys: names_view(self.keys@),
            vals: items_view(self.vals@),
            hex: self.hex as nat,
            hex_len: self.hex_len as nat,
            hex_bad: self.hex_bad,
            high: self.high as nat,
            first_half: self.first_half,
        }
    }
}

impl Scanner {
    spec fn wf(&self) -> bool {
        &&& self.keys@.len() == self.vals@.len()
        &&& names_view(self.keys@).no_duplicates()
        &&& all_well_formed(items_view(self.arr@))
        &&& all_well_formed(items_view(self.vals@))
        &&& in_hex(self.state) ==> hex_bound(self.hex as nat, self.hex_len as nat)
        &&& self.high < 0x10000
    }

    fn new() -> (r: Scanner)
        ensures
            r@ == initial_scan(),
            r.wf(),
    {
        let r = Scanner {
            state: JsonState::Start,
            value: String::new(),
            name: String::new(),
            num: JsonNumber {
                negative: false,
                integer: Vec::new(),
                fraction: Vec::new(),
                exp_negative: false,
                exponent: Vec::new(),
            },
            arr: Vec::new(),
            keys: Vec::new(),
            vals: Vec::new(),
            hex: 0,
            hex_len: 0,
            hex_bad: false,
            high: 0,
            first_half: true,
        };
        proof {
            assert(r@.arr =~= Seq::<Value>::empty());
            assert(r@.keys =~= Seq::<Seq<char>>::empty());
            assert(r@.vals =~= Seq::<Value>::empty());
            assert(r@.num == empty_number());
        }
        r
    }

    fn emit(&mut self, ch: char)
        requires
            old(self).wf(),
        ensures
            final(self)@ == emit(old(self)@, ch),
            final(self).wf(),
    {
        if self.state == JsonState::ObjData {
            push_char(&mut self.value, ch);
        } else {
            push_char(&mut self.name, ch);
        }
    }

    fn bad_hex_digit(&mut self)
        requires
            old(self).wf(),
            in_hex(old(self).state),
        ensures
            final(self)@ == bad_hex_step(old(self)@),
            final(self).wf(),
    {
        let n: u32 = self.hex_len + 1;
        let to_value = self.state == JsonState::UniDigVal;
        self.hex_len = n;
        self.hex_bad = true;
        if n >= 4 {
            self.state = if to_value {
                JsonState::ObjData
            } else {
                JsonState::ObjName
            };
        }
    }

    fn hex_digit(&mut self, d: u32)
        requires
            old(self).wf(),
            in_hex(old(self).state),
            d < 16,
        ensures
            final(self)@ == hex_step(old(self)@, d as nat),
            final(self).wf(),
    {
        let v: u32 = self.hex * 16 + d;
        let n: u32 = self.hex_len + 1;
        let to_value = self.state == JsonState::UniDigVal;
        self.hex = v;
        self.hex_len = n;
        if n < 4 {
            return;
        }
        self.state = if to_value {
            JsonState::ObjData
        } else {
            JsonState::ObjName
        };
        if self.hex_bad {
            return;
        }
        match char_from(v) {
            Some(ch) => {
                proof {
                    lemma_char_of(ch);
                }
                self.emit(ch);
            },
            None => {
                if self.first_half {
                    self.high = v;
                    self.first_half = false;
                } else {
                    let ch = decode_utf16_pair(self.high, v);
                    self.first_half = true;
                    self.emit(ch);
                }
            },
        }
    }
}

impl Scanner {
    fn apply(&mut self, a: Act)
        requires
            old(self).wf(),
            is_simple(a),
            a matches Act::HexDigit(d) ==> in_hex(old(self).state) && d < 16,
            a is BadHexDigit ==> in_hex(old(self).state),
            match a {
                Act::Goto(st) | Act::PushName(_, st) | Act::PushValue(_, st) => !in_hex(st),
                _ => true,
            },
        ensures
            final(self)@ == step(old(self)@, a),
            final(self).wf(),
    {
        match a {
            Act::Goto(st) => {
                self.state = st;
            },
            Act::PushName(c, st) => {
                push_char(&mut self.name, c);
                self.state = st;
            },
            Act::PushValue(c, st) => {
                push_char(&mut self.value, c);
                self.state = st;
            },
            Act::PushNameEscaped(c) => {
                push_char(&mut self.name, '\\');
                push_char(&mut self.name, c);
                self.state = JsonState::ObjName;
            },
            Act::PushValueEscaped(c) => {
                push_char(&mut self.value, '\\');
                push_char(&mut self.value, c);
                self.state = JsonState::ObjData;
            },
            Act::OpenText => {
                self.value = String::new();
                self.state = JsonState::ObjData;
            },
            Act::OpenName => {
                self.name = String::new();
                self.state = JsonState::ObjName;
            },
            Act::OpenObject => {
                self.keys = Vec::new();
                self.vals = Vec::new();
                self.state = JsonState::ObjState;
                proof {
                    assert(self@.keys =~= Seq::<Seq<char>>::empty());
                    assert(self@.vals =~= Seq::<Value>::empty());
                }
            },
            Act::OpenHex(st) => {
                self.hex = 0;
                self.hex_len = 0;
                self.hex_bad = false;
                self.state = st;
            },
            Act::HexDigit(d) => {
                self.hex_digit(d);
            },
            Act::BadHexDigit => {
                self.bad_hex_digit();
            },
            Act::StartNumber(d, neg) => {
                self.num = JsonNumber {
                    negative: neg,
                    integer: vec![d],
                    fraction: Vec::new(),
                    exp_negative: false,
                    exponent: Vec::new(),
                };
                self.state = JsonState::NumValue;
                proof {
                    assert(self@.num.integer =~= seq![d]);
                    assert(self@.num.fraction =~= Seq::<u8>::empty());
                    assert(self@.num.exponent =~= Seq::<u8>::empty());
                }
            },
            Act::IntDigit(d) => {
                self.num.integer.push(d);
            },
            Act::FracDigit(d) => {
                self.num.fraction.push(d);
            },
            Act::StartExponent(d, neg) => {
                self.num.exponent = vec![d];
                self.num.exp_negative = neg;
                self.state = JsonState::ExpNumValue;
                proof {
                    assert(self@.num.exponent =~= seq![d]);
                }
            },
            Act::ExpDigit(d) => {
                self.num.exponent.push(d);
            },
            _ => {},
        }
    }
}

pub proof fn lemma_run_end(s: Seq<char>, pos: int, sc: Scan)
    requires
        pos >= s.len(),
    ensures
        run(s, pos, sc) == (Frag { value: Value::Absent, term: '\0', next: pos }),
{
}

pub proof fn lemma_run_step(s: Seq<char>, pos: int, sc0: Scan)
    requires
        0 <= pos < s.len(),
    ensures
        ({
            let c = s[pos];
            let sc = sc0;
            let p = pos + 1;
            let a = action(sc.state, c);
            let f = fragment(s, p);
            &&& is_simple(a) ==> run(s, pos, sc0) == run(s, p, step(sc, a))
            &&& is_finish(a) ==> run(s, pos, sc0) == finish(s, sc, c, p, a)
            &&& a is ReadElements ==> run(s, pos, sc0) == elements(s, p, sc, c, a->ReadElements_0)
            &&& (a is ReadMember && p <= f.next <= s.len()) ==> run(s, pos, sc0)
                == after_member(s, sc, c, f)
        }),
{
}

pub proof fn lemma_elements_step(s: Seq<char>, p: int, sc: Scan, ret: char, first: bool)
    requires
        0 <= p <= s.len(),
    ensures
        ({
            let f = fragment(s, p);
            let sc2 = Scan { arr: sc.arr.push(f.value), ..sc };
            p <= f.next <= s.len() ==> elements(s, p, sc, ret, first) == (if f.term == ']' {
                Frag { value: Value::Arr(sc2.arr), term: ret, next: f.next }
            } else if f.term == ',' {
                if f.next > p {
                    elements(s, f.next, sc2, ret, false)
                } else {
                    stuck(p)
                }
            } else {
                run(
                    s,
                    f.next,
                    Scan {
                        state: if first {
                            JsonState::ArrState
                        } else {
                            JsonState::ArrNext
                        },
                        ..sc2
                    },
                )
            })
        }),
{
}

/// Reads one value from position `pos` of `s`.
#[verifier::rlimit(100)]
pub(crate) fn scan(s: &Vec<char>, pos: usize) -> (r: (JsonData, char, usize))
    requires
        pos <= s@.len(),
    ensures
        r.0@ == fragment(s@, pos as int).value,
        r.1 == fragment(s@, pos as int).term,
        r.2 == fragment(s@, pos as int).next,
        pos <= r.2 <= s@.len(),
        pos < s@.len() ==> pos < r.2,
        well_formed(r.0@),
    decreases s@.len() - pos,
{
    let ghost target = fragment(s@, pos as int);
    let mut sc = Scanner::new();
    let mut p: usize = pos;
    while p < s.len()
        invariant
            pos <= p <= s@.len(),
            sc.wf(),
            run(s@, p as int, sc@) == target,
            target == fragment(s@, pos as int),
        decreases s@.len() - p,
    {
        let c = s[p];
        let ghost here = p as int;
        let ghost sc0 = sc@;
        p = p + 1;
        let a = act(sc.state, c);
        proof {
            lemma_run_step(s@, here, sc0);
        }
        match a {
            Act::ReturnText => {
                return (JsonData::Text(sc.value), c, p);
            },
            Act::ReturnNumber => {
                return (JsonData::Num(sc.num), c, p);
            },
            Act::ReturnArray => {
                proof {
                    lemma_arr_view(sc.arr);
                }
                return (JsonData::Arr(sc.arr), c, p);
            },
            Act::ReturnObject => {
                proof {
                    lemma_data_view(sc.keys, sc.vals);
                }
                return (JsonData::Data(sc.keys, sc.vals), '\0', p);
            },
            Act::ReturnTrue => {
                return (JsonData::Bool(true), c, p);
            },
            Act::ReturnFalse => {
                return (JsonData::Bool(false), c, p);
            },
            Act::ReturnNull => {
                return (JsonData::Null, c, p);
            },
            Act::ReturnAbsent => {
                return (JsonData::Absent, c, p);
            },
            Act::Fail => {
                let (line, col) = line_column_of(s, p);
                let m = error_message(sc.state, c, line, col);
                return (JsonData::Error(m), '\0', p);
            },
            Act::ReadMember => {
                let (v, t, np) = scan(s, p);
                let k = sc.name.clone();
                let ghost old_keys = names_view(sc.keys@);
                let ghost old_vals = items_view(sc.vals@);
                proof {
                    lemma_put_member(old_keys, old_vals, k@, v@);
                }
                put_member_in(&mut sc.keys, &mut sc.vals, k, v);
                p = np;
                if t == '}' {
                    proof {
                        lemma_data_view(sc.keys, sc.vals);
                    }
                    return (JsonData::Data(sc.keys, sc.vals), c, p);
                } else if t == ',' {
                    sc.state = JsonState::ObjState;
                } else {
                    sc.state = JsonState::ObjExpEnd;
                }
            },
            Act::ReadElements(first_end) => {
                let ret = c;
                let mut first = first_end;
                loop
                    invariant_except_break
                        elements(s@, p as int, sc@, ret, first) == target,
                    invariant
                        here < p <= s@.len(),
                        pos <= here,
                        sc.wf(),
                                    target == fragment(s@, pos as int),
                    ensures
                        run(s@, p as int, sc@) == target,
                    decreases s@.len() - p,
                {
                    let ghost start = p as int;
                    let ghost before = sc@;
                    let (v, t, np) = scan(s, p);
                    sc.arr.push(v);
                    p = np;
                    proof {
                        lemma_elements_step(s@, start, before, ret, first);
                        assert(sc@.arr =~= before.arr.push(v@));
                    }
                    if t == ']' {
                        proof {
                            lemma_arr_view(sc.arr);
                        }
                        return (JsonData::Arr(sc.arr), ret, p);
                    } else if t == ',' {
                        first = false;
                    } else {
                        sc.state = if first {
                            JsonState::ArrState
                        } else {
                            JsonState::ArrNext
                        };
                        break;
                    }
                }
            },
            _ => {
                sc.apply(a);
            },
        }
    }
    proof {
        lemma_run_end(s@, p as int, sc@);
    }
    (JsonData::Absent, '\0', p)
}

} // verus!
