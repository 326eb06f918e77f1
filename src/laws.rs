use vstd::prelude::*;
use crate::scanner::{
    empty_number, fragment, initial_scan, lemma_elements_step, lemma_run_step, run, step, Frag, Scan,
};
use crate::table::{action, digit_of, is_digit, is_number_state, is_ws, Act, JsonState};
use crate::text::digit_char;
use crate::value::{put_member, NumberModel, Value};

verus! {

pub open spec fn is_letter(c: char) -> bool {
    ('a' <= c <= 'z') || ('A' <= c <= 'Z')
}

/// A letter that cannot begin `true`, `false` or `null` makes the value malformed at once, and
/// so does a second letter that departs from the literal that the first one begins.
pub proof fn law_letters_malformed(s: Seq<char>)
    requires
        s.len() >= 1,
        is_letter(s[0]),
        (s[0] == 't' || s[0] == 'f' || s[0] == 'n') ==> s.len() >= 2 && is_letter(s[1]),
        !(s[0] == 't' && s[1] == 'r'),
        !(s[0] == 'f' && s[1] == 'a'),
        !(s[0] == 'n' && s[1] == 'u'),
    ensures
        fragment(s, 0).value is Error,
{
    lemma_run_step(s, 0, initial_scan());
    let a = action(JsonState::Start, s[0]);
    if a is Goto {
        let sc1 = step(initial_scan(), a);
        lemma_run_step(s, 1, sc1);
    }
}

/// The characters of a sequence of decimal digits.
pub open spec fn digit_chars(ds: Seq<u8>) -> Seq<char> {
    Seq::new(ds.len(), |i: int| digit_char(ds[i] as nat))
}

pub open spec fn sign_text(negative: bool) -> Seq<char> {
    if negative {
        seq!['-']
    } else {
        Seq::empty()
    }
}

/// The text of a number: sign, integer digits, then `.` and the fraction digits if there are
/// any, then `e`, the exponent's sign and its digits if there are any.
pub open spec fn render_number(n: NumberModel) -> Seq<char> {
    let frac = if n.fraction.len() > 0 {
        seq!['.'] + digit_chars(n.fraction)
    } else {
        Seq::empty()
    };
    let exp = if n.exponent.len() > 0 {
        seq!['e'] + sign_text(n.exp_negative) + digit_chars(n.exponent)
    } else {
        Seq::empty()
    };
    sign_text(n.negative) + digit_chars(n.integer) + frac + exp
}

/// Appends digits to the part of the number that the state reads.
pub open spec fn absorb(sc: Scan, ds: Seq<u8>) -> Scan {
    if sc.state == JsonState::NumValue {
        Scan { num: NumberModel { integer: sc.num.integer + ds, ..sc.num }, ..sc }
    } else if sc.state == JsonState::MantissaValue {
        Scan { num: NumberModel { fraction: sc.num.fraction + ds, ..sc.num }, ..sc }
    } else {
        Scan { num: NumberModel { exponent: sc.num.exponent + ds, ..sc.num }, ..sc }
    }
}

proof fn lemma_digit_char(d: u8)
    requires
        d < 10,
    ensures
        is_digit(digit_char(d as nat)),
        digit_of(digit_char(d as nat)) == d,
        digit_char(d as nat) != '\n',
{
}

/// A run of digits in a number state is read into the matching part of the number.
proof fn lemma_digits(s: Seq<char>, pos: int, sc: Scan, ds: Seq<u8>)
    requires
        0 <= pos,
        pos + ds.len() <= s.len(),
        is_number_state(sc.state),
        forall|i: int| 0 <= i < ds.len() ==> ds[i] < 10 && s[pos + i] == digit_char(ds[i] as nat),
    ensures
        run(s, pos, sc) == run(s, pos + ds.len(), absorb(sc, ds)),
    decreases ds.len(),
{
    if ds.len() == 0 {
        assert(sc.num.integer + ds =~= sc.num.integer);
        assert(sc.num.fraction + ds =~= sc.num.fraction);
        assert(sc.num.exponent + ds =~= sc.num.exponent);
    } else {
        lemma_digit_char(ds[0]);
        assert(s[pos] == digit_char(ds[0] as nat));
        lemma_run_step(s, pos, sc);
        let sc1 = absorb(sc, seq![ds[0]]);
        assert(sc.num.integer.push(ds[0]) =~= sc.num.integer + seq![ds[0]]);
        assert(sc.num.fraction.push(ds[0]) =~= sc.num.fraction + seq![ds[0]]);
        assert(sc.num.exponent.push(ds[0]) =~= sc.num.exponent + seq![ds[0]]);
        assert(run(s, pos, sc) == run(s, pos + 1, sc1));
        let rest = ds.drop_first();
        assert forall|i: int| 0 <= i < rest.len() implies rest[i] < 10 && s[pos + 1 + i]
            == digit_char(rest[i] as nat) by {
            assert(rest[i] == ds[i + 1]);
        }
        lemma_digits(s, pos + 1, sc1, rest);
        assert(seq![ds[0]] + rest =~= ds);
        assert(sc.num.integer + seq![ds[0]] + rest =~= sc.num.integer + ds);
        assert(sc.num.fraction + seq![ds[0]] + rest =~= sc.num.fraction + ds);
        assert(sc.num.exponent + seq![ds[0]] + rest =~= sc.num.exponent + ds);
    }
}

/// The working state once the sign and the first digit have been read.
pub open spec fn number_begun(negative: bool, d0: u8) -> Scan {
    Scan {
        state: JsonState::NumValue,
        num: NumberModel { negative: negative, integer: seq![d0], ..empty_number() },
        ..initial_scan()
    }
}

proof fn lemma_number_start(s: Seq<char>, negative: bool, d0: u8)
    requires
        d0 < 10,
        negative ==> s.len() >= 2 && s[0] == '-' && s[1] == digit_char(d0 as nat),
        !negative ==> s.len() >= 1 && s[0] == digit_char(d0 as nat),
    ensures
        run(s, 0, initial_scan()) == run(s, sign_text(negative).len() + 1int, number_begun(negative, d0)),
{
    lemma_digit_char(d0);
    let sc0 = initial_scan();
    if negative {
        lemma_run_step(s, 0, sc0);
        let sc1 = Scan { state: JsonState::NegNum, ..sc0 };
        assert(run(s, 0, sc0) == run(s, 1, sc1));
        lemma_run_step(s, 1, sc1);
        assert(seq![d0] =~= seq![d0]);
    } else {
        lemma_run_step(s, 0, sc0);
    }
}

proof fn lemma_fraction(s: Seq<char>, b: int, sc: Scan, fr: Seq<u8>)
    requires
        0 <= b,
        b + 1 + fr.len() <= s.len(),
        sc.state == JsonState::NumValue,
        s[b] == '.',
        forall|i: int| 0 <= i < fr.len() ==> fr[i] < 10 && s[b + 1 + i] == digit_char(fr[i] as nat),
    ensures
        run(s, b, sc) == run(s, b + 1 + fr.len(), absorb(Scan { state: JsonState::MantissaValue, ..sc }, fr)),
{
    lemma_run_step(s, b, sc);
    lemma_digits(s, b + 1, Scan { state: JsonState::MantissaValue, ..sc }, fr);
}

/// The working state once the exponent has been read.
pub open spec fn with_exponent(sc: Scan, negative: bool, ds: Seq<u8>) -> Scan {
    Scan {
        state: JsonState::ExpNumValue,
        num: NumberModel { exp_negative: negative, exponent: ds, ..sc.num },
        ..sc
    }
}

proof fn lemma_exponent_mark(s: Seq<char>, c: int, sc: Scan, negative: bool)
    requires
        0 <= c,
        c + 1 + sign_text(negative).len() <= s.len(),
        sc.state == JsonState::NumValue || sc.state == JsonState::MantissaValue,
        s[c] == 'e',
        negative ==> s[c + 1] == '-',
    ensures
        run(s, c, sc) == run(
            s,
            c + 1 + sign_text(negative).len(),
            Scan {
                state: if negative {
                    JsonState::NegExpNum
                } else {
                    JsonState::ExpExpValue
                },
                ..sc
            },
        ),
{
    let sc_x = Scan { state: JsonState::ExpExpValue, ..sc };
    lemma_run_step(s, c, sc);
    assert(run(s, c, sc) == run(s, c + 1, sc_x));
    if negative {
        lemma_run_step(s, c + 1, sc_x);
    }
}

proof fn lemma_exponent_first(s: Seq<char>, g: int, sc: Scan, negative: bool, e0: u8)
    requires
        0 <= g < s.len(),
        e0 < 10,
        sc.state == (if negative {
            JsonState::NegExpNum
        } else {
            JsonState::ExpExpValue
        }),
        s[g] == digit_char(e0 as nat),
    ensures
        run(s, g, sc) == run(s, g + 1, with_exponent(sc, negative, seq![e0])),
{
    lemma_digit_char(e0);
    lemma_run_step(s, g, sc);
}

proof fn lemma_exponent(s: Seq<char>, c: int, sc: Scan, negative: bool, ds: Seq<u8>)
    requires
        0 <= c,
        ds.len() >= 1,
        c + 1 + sign_text(negative).len() + ds.len() <= s.len(),
        sc.state == JsonState::NumValue || sc.state == JsonState::MantissaValue,
        s[c] == 'e',
        negative ==> s[c + 1] == '-',
        forall|i: int| 0 <= i < ds.len() ==> ds[i] < 10 && s[c + 1 + sign_text(negative).len() + i]
            == digit_char(ds[i] as nat),
    ensures
        run(s, c, sc) == run(s, c + 1 + sign_text(negative).len() + ds.len(), with_exponent(sc, negative, ds)),
{
    let g = c + 1 + sign_text(negative).len();
    lemma_exponent_mark(s, c, sc, negative);
    let sc_y = Scan {
        state: if negative {
            JsonState::NegExpNum
        } else {
            JsonState::ExpExpValue
        },
        ..sc
    };
    let e0 = ds[0];
    assert(s[g + 0] == digit_char(e0 as nat));
    lemma_exponent_first(s, g, sc_y, negative, e0);
    let sc_z = with_exponent(sc_y, negative, seq![e0]);
    let rest = ds.drop_first();
    assert forall|i: int| 0 <= i < rest.len() implies rest[i] < 10 && s[g + 1 + i]
        == digit_char(rest[i] as nat) by {
        assert(s[g + (i + 1)] == digit_char(ds[i + 1] as nat));
    }
    lemma_digits(s, g + 1, sc_z, rest);
    assert(seq![e0] + rest =~= ds);
    assert(absorb(sc_z, rest) == with_exponent(sc, negative, ds));
}

proof fn lemma_number_end(s: Seq<char>, e: int, sc: Scan)
    requires
        0 <= e < s.len(),
        is_number_state(sc.state),
        s[e] == ',' || s[e] == ']' || s[e] == '}' || is_ws(s[e]),
    ensures
        run(s, e, sc) == (Frag { value: Value::Num(sc.num), term: s[e], next: e + 1 }),
{
    lemma_run_step(s, e, sc);
}

/// Reading the text of a number followed by `,`, `]`, `}` or whitespace gives back that number,
/// with the terminator, and consumes the whole text.
#[verifier::rlimit(100)]
#[verifier::spinoff_prover]
pub proof fn law_number_round_trip(n: NumberModel, t: char)
    requires
        n.wf(),
        n.integer.len() >= 1,
        n.exponent.len() == 0 ==> !n.exp_negative,
        t == ',' || t == ']' || t == '}' || is_ws(t),
    ensures
        fragment(render_number(n) + seq![t], 0) == (Frag {
            value: Value::Num(n),
            term: t,
            next: render_number(n).len() + 1int,
        }),
{
    let sign = sign_text(n.negative);
    let ip = digit_chars(n.integer);
    let fp = if n.fraction.len() > 0 {
        seq!['.'] + digit_chars(n.fraction)
    } else {
        Seq::empty()
    };
    let es = sign_text(n.exp_negative);
    let ep = if n.exponent.len() > 0 {
        seq!['e'] + es + digit_chars(n.exponent)
    } else {
        Seq::empty()
    };
    let s = sign + ip + fp + ep + seq![t];
    assert(s =~= render_number(n) + seq![t]);
    let a = sign.len() as int;
    let b = a + ip.len();
    let c = b + fp.len();
    let e = c + ep.len();
    assert(s.len() == e + 1);
    assert forall|i: int| 0 <= i < ip.len() implies s[a + i] == ip[i] by {}
    assert forall|i: int| 0 <= i < fp.len() implies s[b + i] == fp[i] by {}
    assert forall|i: int| 0 <= i < ep.len() implies s[c + i] == ep[i] by {}
    assert(s[e] == t);
    // the sign and the first digit
    let d0 = n.integer[0];
    if n.negative {
        assert(s[0] == '-');
    }
    assert(s[a + 0] == ip[0]);
    lemma_number_start(s, n.negative, d0);
    let sc_n = number_begun(n.negative, d0);
    // the other integer digits
    let irest = n.integer.drop_first();
    assert forall|i: int| 0 <= i < irest.len() implies irest[i] < 10 && s[a + 1 + i]
        == digit_char(irest[i] as nat) by {
        assert(s[a + (i + 1)] == ip[i + 1]);
    }
    lemma_digits(s, a + 1, sc_n, irest);
    assert(seq![d0] + irest =~= n.integer);
    let sc_i = absorb(sc_n, irest);
    assert(run(s, 0, initial_scan()) == run(s, b, sc_i));
    // the fraction
    let sc_f = if n.fraction.len() > 0 {
        absorb(Scan { state: JsonState::MantissaValue, ..sc_i }, n.fraction)
    } else {
        sc_i
    };
    if n.fraction.len() > 0 {
        assert(s[b + 0] == '.');
        assert forall|i: int| 0 <= i < n.fraction.len() implies n.fraction[i] < 10 && s[b + 1 + i]
            == digit_char(n.fraction[i] as nat) by {
            assert(s[b + (i + 1)] == fp[i + 1]);
        }
        lemma_fraction(s, b, sc_i, n.fraction);
        assert(Seq::<u8>::empty() + n.fraction =~= n.fraction);
    }
    assert(run(s, 0, initial_scan()) == run(s, c, sc_f));
    // the exponent
    let sc_e = if n.exponent.len() > 0 {
        with_exponent(sc_f, n.exp_negative, n.exponent)
    } else {
        sc_f
    };
    if n.exponent.len() > 0 {
        assert(s[c + 0] == 'e');
        if n.exp_negative {
            assert(s[c + 1] == ep[1]);
        }
        assert forall|i: int| 0 <= i < n.exponent.len() implies n.exponent[i] < 10 && s[c + 1
            + es.len() + i] == digit_char(n.exponent[i] as nat) by {
            assert(s[c + (1 + es.len() + i)] == ep[1 + es.len() + i]);
        }
        lemma_exponent(s, c, sc_f, n.exp_negative, n.exponent);
    }
    assert(run(s, 0, initial_scan()) == run(s, e, sc_e));
    // the terminator
    lemma_number_end(s, e, sc_e);
    if n.fraction.len() == 0 {
        assert(n.fraction =~= Seq::<u8>::empty());
    }
    if n.exponent.len() == 0 {
        assert(n.exponent =~= Seq::<u8>::empty());
    }
    assert(sc_e.num.negative == n.negative);
    assert(sc_e.num.integer == n.integer);
    assert(sc_e.num.fraction == n.fraction);
    assert(sc_e.num.exp_negative == n.exp_negative);
    assert(sc_e.num.exponent == n.exponent);
    assert(sc_e.num == n);
}

/// A text with no quote and no backslash.
pub open spec fn is_plain(t: Seq<char>) -> bool {
    forall|i: int| 0 <= i < t.len() ==> t[i] != '"' && t[i] != '\\'
}

/// Plain characters inside a string are taken as they are.
proof fn lemma_plain_chars(s: Seq<char>, pos: int, sc: Scan, t: Seq<char>)
    requires
        0 <= pos,
        pos + t.len() <= s.len(),
        sc.state == JsonState::ObjData,
        is_plain(t),
        forall|i: int| 0 <= i < t.len() ==> s[pos + i] == t[i],
    ensures
        run(s, pos, sc) == run(
            s,
            pos + t.len(),
            Scan { value: sc.value + t, ..sc },
        ),
    decreases t.len(),
{
    if t.len() == 0 {
        assert(sc.value + t =~= sc.value);
    } else {
        let c = t[0];
        assert(s[pos + 0] == c);
        lemma_run_step(s, pos, sc);
        let sc1 = Scan {
            value: sc.value.push(c),
            ..sc
        };
        assert(run(s, pos, sc) == run(s, pos + 1, sc1));
        let rest = t.drop_first();
        assert forall|i: int| 0 <= i < rest.len() implies s[pos + 1 + i] == rest[i] by {
            assert(s[pos + (i + 1)] == t[i + 1]);
        }
        lemma_plain_chars(s, pos + 1, sc1, rest);
        assert(sc.value.push(c) + rest =~= sc.value + t);
    }
}

/// A string literal: the text between two quotes.
pub open spec fn quoted(t: Seq<char>) -> Seq<char> {
    seq!['"'] + t + seq!['"']
}

/// A plain string literal anywhere in a text is read back as its content.
proof fn lemma_string_at(s: Seq<char>, p: int, t: Seq<char>)
    requires
        0 <= p,
        p + t.len() + 2 <= s.len(),
        is_plain(t),
        s.subrange(p, p + t.len() + 2) == quoted(t),
    ensures
        fragment(s, p) == (Frag { value: Value::Text(t), term: '"', next: p + t.len() + 2 }),
{
    let q = quoted(t);
    assert forall|i: int| 0 <= i < t.len() + 2 implies s[p + i] == q[i] by {
        assert(s.subrange(p, p + t.len() + 2)[i] == s[p + i]);
    }
    let sc0 = initial_scan();
    assert(q[0] == '"');
    assert(s.subrange(p, p + t.len() + 2)[0] == s[p]);
    lemma_run_step(s, p, sc0);
    let sc1 = Scan { state: JsonState::ObjData, value: Seq::empty(), ..sc0 };
    assert(run(s, p, sc0) == run(s, p + 1, sc1));
    assert forall|i: int| 0 <= i < t.len() implies s[p + 1 + i] == t[i] by {
        assert(s[p + (1 + i)] == q[1 + i]);
    }
    lemma_plain_chars(s, p + 1, sc1, t);
    let sc2 = Scan { value: sc1.value + t, ..sc1 };
    assert(s[p + (t.len() + 1)] == q[t.len() + 1int]);
    lemma_run_step(s, p + t.len() + 1, sc2);
    assert(Seq::<char>::empty() + t =~= t);
}

/// A string literal whose content holds no quote and no backslash reads back as that content,
/// ending at its closing quote.
pub proof fn law_plain_string(t: Seq<char>)
    requires
        is_plain(t),
    ensures
        fragment(quoted(t), 0) == (Frag { value: Value::Text(t), term: '"', next: t.len() + 2int }),
{
    let s = quoted(t);
    assert(s.subrange(0, t.len() + 2int) =~= s);
    lemma_string_at(s, 0, t);
}

/// The elements after the first: a comma and a string literal for each.
pub open spec fn items_text(ts: Seq<Seq<char>>) -> Seq<char>
    decreases ts.len(),
{
    if ts.len() == 0 {
        Seq::empty()
    } else {
        seq![','] + quoted(ts[0]) + items_text(ts.drop_first())
    }
}

/// An array of string literals, `t0` first.
pub open spec fn array_text(t0: Seq<char>, ts: Seq<Seq<char>>) -> Seq<char> {
    seq!['['] + quoted(t0) + items_text(ts) + seq![']']
}

pub open spec fn texts(ts: Seq<Seq<char>>) -> Seq<Value> {
    ts.map_values(|t: Seq<char>| Value::Text(t))
}

pub open spec fn all_plain(ts: Seq<Seq<char>>) -> bool {
    forall|i: int| 0 <= i < ts.len() ==> is_plain(#[trigger] ts[i])
}

/// After an element, each further string element is appended, and `]` ends the array.
proof fn lemma_array_rest(s: Seq<char>, pos: int, sc: Scan, ts: Seq<Seq<char>>)
    requires
        0 <= pos < s.len(),
        sc.state == JsonState::ArrState || sc.state == JsonState::ArrNext,
        all_plain(ts),
        s.subrange(pos, s.len() as int) == items_text(ts) + seq![']'],
    ensures
        run(s, pos, sc) == (Frag {
            value: Value::Arr(sc.arr + texts(ts)),
            term: ']',
            next: s.len() as int,
        }),
    decreases ts.len(),
{
    let rest_text = s.subrange(pos, s.len() as int);
    if ts.len() == 0 {
        assert(rest_text =~= seq![']']);
        assert(s[pos] == rest_text[0]);
        lemma_run_step(s, pos, sc);
        assert(sc.arr + texts(ts) =~= sc.arr);
    } else {
        let t0 = ts[0];
        let rest = ts.drop_first();
        assert(is_plain(t0));
        assert(all_plain(rest)) by {
            assert forall|i: int| 0 <= i < rest.len() implies is_plain(#[trigger] rest[i]) by {
                assert(rest[i] == ts[i + 1]);
            }
        }
        let qt = quoted(t0);
        let q = pos + 1 + qt.len();
        assert(rest_text =~= seq![','] + qt + (items_text(rest) + seq![']']));
        assert(s[pos] == rest_text[0]);
        assert(s.subrange(pos + 1, pos + 1 + t0.len() + 2) =~= qt) by {
            assert forall|i: int| 0 <= i < qt.len() implies s.subrange(pos + 1, pos + 1 + t0.len()
                + 2)[i] == qt[i] by {
                assert(s[pos + 1 + i] == rest_text[1 + i]);
            }
        }
        assert(s.subrange(q, s.len() as int) =~= items_text(rest) + seq![']']) by {
            assert forall|i: int| 0 <= i < s.len() - q implies s.subrange(q, s.len() as int)[i]
                == (items_text(rest) + seq![']'])[i] by {
                assert(s[q + i] == rest_text[1 + qt.len() + i]);
            }
        }
        lemma_string_at(s, pos + 1, t0);
        lemma_run_step(s, pos, sc);
        let sc2 = Scan { arr: sc.arr.push(Value::Text(t0)), ..sc };
        if sc.state == JsonState::ArrState {
            lemma_elements_step(s, pos + 1, sc, ',', false);
            assert(run(s, pos, sc) == run(s, q, Scan { state: JsonState::ArrNext, ..sc2 }));
            lemma_array_rest(s, q, Scan { state: JsonState::ArrNext, ..sc2 }, rest);
        } else {
            lemma_elements_step(s, pos + 1, sc, ',', true);
            assert(run(s, pos, sc) == run(s, q, Scan { state: JsonState::ArrState, ..sc2 }));
            lemma_array_rest(s, q, Scan { state: JsonState::ArrState, ..sc2 }, rest);
        }
        assert(sc.arr.push(Value::Text(t0)) + texts(rest) =~= sc.arr + texts(ts));
    }
}

/// An array of plain string literals reads back as an array of those strings, of the same
/// length and in the same order, and the whole text is consumed.
pub proof fn law_string_array(t0: Seq<char>, ts: Seq<Seq<char>>)
    requires
        is_plain(t0),
        all_plain(ts),
    ensures
        fragment(array_text(t0, ts), 0) == (Frag {
            value: Value::Arr(seq![Value::Text(t0)] + texts(ts)),
            term: ']',
            next: array_text(t0, ts).len() as int,
        }),
{
    let s = array_text(t0, ts);
    let qt = quoted(t0);
    let q: int = qt.len() + 1int;
    assert(s[0] == '[');
    assert(s.subrange(1, t0.len() + 3int) =~= qt);
    assert(s.subrange(q, s.len() as int) =~= items_text(ts) + seq![']']);
    lemma_string_at(s, 1, t0);
    let sc0 = initial_scan();
    lemma_run_step(s, 0, sc0);
    lemma_elements_step(s, 1, sc0, '[', true);
    let sc1 = Scan { state: JsonState::ArrState, arr: seq![Value::Text(t0)], ..sc0 };
    assert(sc0.arr.push(Value::Text(t0)) =~= seq![Value::Text(t0)]);
    assert(run(s, 0, sc0) == run(s, q, sc1));
    lemma_array_rest(s, q, sc1, ts);
}

/// Plain characters inside a member name are taken as they are.
proof fn lemma_name_chars(s: Seq<char>, pos: int, sc: Scan, t: Seq<char>)
    requires
        0 <= pos,
        pos + t.len() <= s.len(),
        sc.state == JsonState::ObjName,
        is_plain(t),
        forall|i: int| 0 <= i < t.len() ==> s[pos + i] == t[i],
    ensures
        run(s, pos, sc) == run(
            s,
            pos + t.len(),
            Scan { name: sc.name + t, ..sc },
        ),
    decreases t.len(),
{
    if t.len() == 0 {
        assert(sc.name + t =~= sc.name);
    } else {
        let c = t[0];
        assert(s[pos + 0] == c);
        lemma_run_step(s, pos, sc);
        let sc1 = Scan {
            name: sc.name.push(c),
            ..sc
        };
        assert(run(s, pos, sc) == run(s, pos + 1, sc1));
        let rest = t.drop_first();
        assert forall|i: int| 0 <= i < rest.len() implies s[pos + 1 + i] == rest[i] by {
            assert(s[pos + (i + 1)] == t[i + 1]);
        }
        lemma_name_chars(s, pos + 1, sc1, rest);
        assert(sc.name.push(c) + rest =~= sc.name + t);
    }
}

/// One member: a quoted name, a colon and a quoted string value.
pub open spec fn member_text(k: Seq<char>, v: Seq<char>) -> Seq<char> {
    quoted(k) + seq![':'] + quoted(v)
}

/// The working state after a member has been read: the member set, and the next `,` or `}`
/// awaited.
pub open spec fn member_read(sc: Scan, k: Seq<char>, v: Seq<char>) -> Scan {
    let kv = put_member(sc.keys, sc.vals, k, Value::Text(v));
    Scan {
        state: JsonState::ObjExpEnd,
        name: k,
        keys: kv.0,
        vals: kv.1,
        ..sc
    }
}

proof fn lemma_member_name(s: Seq<char>, pos: int, sc: Scan, k: Seq<char>)
    requires
        0 <= pos,
        pos + k.len() + 2 <= s.len(),
        sc.state == JsonState::ObjState,
        is_plain(k),
        s.subrange(pos, pos + k.len() + 2) == quoted(k),
    ensures
        run(s, pos, sc) == run(
            s,
            pos + k.len() + 2,
            Scan {
                state: JsonState::ExpNameSep,
                name: k,
                ..sc
            },
        ),
{
    let q = quoted(k);
    assert forall|i: int| 0 <= i < k.len() + 2 implies s[pos + i] == q[i] by {
        assert(s.subrange(pos, pos + k.len() + 2)[i] == s[pos + i]);
    }
    assert(s.subrange(pos, pos + k.len() + 2)[0] == s[pos]);
    lemma_run_step(s, pos, sc);
    let sc1 = Scan { state: JsonState::ObjName, name: Seq::empty(), ..sc };
    assert(run(s, pos, sc) == run(s, pos + 1, sc1));
    assert forall|i: int| 0 <= i < k.len() implies s[pos + 1 + i] == k[i] by {
        assert(s[pos + (1 + i)] == q[1 + i]);
    }
    lemma_name_chars(s, pos + 1, sc1, k);
    let sc2 = Scan { name: sc1.name + k, ..sc1 };
    assert(s[pos + (k.len() + 1)] == q[k.len() + 1int]);
    lemma_run_step(s, pos + k.len() + 1, sc2);
    assert(Seq::<char>::empty() + k =~= k);
}

proof fn lemma_member_value(s: Seq<char>, pos: int, sc: Scan, v: Seq<char>)
    requires
        0 <= pos,
        pos + v.len() + 3 <= s.len(),
        sc.state == JsonState::ExpNameSep,
        is_plain(v),
        s[pos] == ':',
        s.subrange(pos + 1, pos + v.len() + 3) == quoted(v),
    ensures
        run(s, pos, sc) == run(
            s,
            pos + v.len() + 3,
            ({
                let kv = put_member(sc.keys, sc.vals, sc.name, Value::Text(v));
                Scan { state: JsonState::ObjExpEnd, keys: kv.0, vals: kv.1, ..sc }
            }),
        ),
{
    lemma_string_at(s, pos + 1, v);
    lemma_run_step(s, pos, sc);
}

proof fn lemma_member(s: Seq<char>, pos: int, sc: Scan, k: Seq<char>, v: Seq<char>)
    requires
        0 <= pos,
        pos + member_text(k, v).len() <= s.len(),
        sc.state == JsonState::ObjState,
        is_plain(k),
        is_plain(v),
        s.subrange(pos, pos + member_text(k, v).len()) == member_text(k, v),
    ensures
        run(s, pos, sc) == run(s, pos + member_text(k, v).len(), member_read(sc, k, v)),
{
    let m = member_text(k, v);
    let a = pos + k.len() + 2;
    assert(s.subrange(pos, a) =~= quoted(k)) by {
        assert forall|i: int| 0 <= i < k.len() + 2 implies s.subrange(pos, a)[i] == quoted(k)[i] by {
            assert(s.subrange(pos, pos + m.len())[i] == m[i]);
        }
    }
    assert(s[a] == ':') by {
        assert(s.subrange(pos, pos + m.len())[k.len() + 2int] == m[k.len() + 2int]);
    }
    assert(s.subrange(a + 1, a + v.len() + 3) =~= quoted(v)) by {
        assert forall|i: int| 0 <= i < v.len() + 2 implies s.subrange(a + 1, a + v.len() + 3)[i]
            == quoted(v)[i] by {
            assert(s.subrange(pos, pos + m.len())[k.len() + 3 + i] == m[k.len() + 3 + i]);
        }
    }
    lemma_member_name(s, pos, sc, k);
    let sc1 = Scan {
        state: JsonState::ExpNameSep,
        name: k,
        ..sc
    };
    lemma_member_value(s, a, sc1, v);
}

/// The members after the first, each after a comma.
pub open spec fn members_text(ms: Seq<(Seq<char>, Seq<char>)>) -> Seq<char>
    decreases ms.len(),
{
    if ms.len() == 0 {
        Seq::empty()
    } else {
        seq![','] + member_text(ms[0].0, ms[0].1) + members_text(ms.drop_first())
    }
}

/// Sets the members in order, each with a string value; a later member of the same name
/// replaces the value of an earlier one.
pub open spec fn set_members(ks: Seq<Seq<char>>, vs: Seq<Value>, ms: Seq<(Seq<char>, Seq<char>)>) -> (
    Seq<Seq<char>>,
    Seq<Value>,
)
    decreases ms.len(),
{
    if ms.len() == 0 {
        (ks, vs)
    } else {
        let kv = put_member(ks, vs, ms[0].0, Value::Text(ms[0].1));
        set_members(kv.0, kv.1, ms.drop_first())
    }
}

pub open spec fn plain_members(ms: Seq<(Seq<char>, Seq<char>)>) -> bool {
    forall|i: int| 0 <= i < ms.len() ==> is_plain(#[trigger] ms[i].0) && is_plain(ms[i].1)
}

proof fn lemma_object_rest(s: Seq<char>, pos: int, sc: Scan, ms: Seq<(Seq<char>, Seq<char>)>)
    requires
        0 <= pos < s.len(),
        sc.state == JsonState::ObjExpEnd,
        plain_members(ms),
        s.subrange(pos, s.len() as int) == members_text(ms) + seq!['}'],
    ensures
        run(s, pos, sc) == ({
            let kv = set_members(sc.keys, sc.vals, ms);
            Frag { value: Value::Data(kv.0, kv.1), term: '\0', next: s.len() as int }
        }),
    decreases ms.len(),
{
    let rest_text = s.subrange(pos, s.len() as int);
    if ms.len() == 0 {
        assert(rest_text =~= seq!['}']);
        assert(s[pos] == rest_text[0]);
        lemma_run_step(s, pos, sc);
    } else {
        let k = ms[0].0;
        let v = ms[0].1;
        let rest = ms.drop_first();
        assert(is_plain(k) && is_plain(v));
        assert(plain_members(rest)) by {
            assert forall|i: int| 0 <= i < rest.len() implies is_plain(#[trigger] rest[i].0)
                && is_plain(rest[i].1) by {
                assert(rest[i] == ms[i + 1]);
            }
        }
        let m = member_text(k, v);
        let q = pos + 1 + m.len();
        assert(rest_text =~= seq![','] + m + (members_text(rest) + seq!['}']));
        assert(s[pos] == rest_text[0]);
        assert(s.subrange(pos + 1, pos + 1 + m.len()) =~= m) by {
            assert forall|i: int| 0 <= i < m.len() implies s.subrange(pos + 1, pos + 1 + m.len())[i]
                == m[i] by {
                assert(s[pos + 1 + i] == rest_text[1 + i]);
            }
        }
        assert(s.subrange(q, s.len() as int) =~= members_text(rest) + seq!['}']) by {
            assert forall|i: int| 0 <= i < s.len() - q implies s.subrange(q, s.len() as int)[i]
                == (members_text(rest) + seq!['}'])[i] by {
                assert(s[q + i] == rest_text[1 + m.len() + i]);
            }
        }
        lemma_run_step(s, pos, sc);
        let sc1 = Scan { state: JsonState::ObjState, ..sc };
        assert(run(s, pos, sc) == run(s, pos + 1, sc1));
        lemma_member(s, pos + 1, sc1, k, v);
        lemma_object_rest(s, q, member_read(sc1, k, v), rest);
    }
}

/// An object.
pub open spec fn object_text(k0: Seq<char>, v0: Seq<char>, ms: Seq<(Seq<char>, Seq<char>)>) -> Seq<char> {
    seq!['{'] + member_text(k0, v0) + members_text(ms) + seq!['}']
}

/// An object whose members have plain names and plain string values reads back as an object
/// with those members set in order: every name is present, and where a name occurs twice the
/// last value wins. The whole text is consumed, and NUL is handed back as terminator.
pub proof fn law_string_object(k0: Seq<char>, v0: Seq<char>, ms: Seq<(Seq<char>, Seq<char>)>)
    requires
        is_plain(k0),
        is_plain(v0),
        plain_members(ms),
    ensures
        fragment(object_text(k0, v0, ms), 0) == ({
            let first = put_member(Seq::empty(), Seq::empty(), k0, Value::Text(v0));
            let kv = set_members(first.0, first.1, ms);
            Frag { value: Value::Data(kv.0, kv.1), term: '\0', next: object_text(k0, v0, ms).len() as int }
        }),
{
    let s = object_text(k0, v0, ms);
    let m = member_text(k0, v0);
    let q: int = m.len() + 1int;
    assert(s[0] == '{');
    assert(s.subrange(1, q) =~= m);
    assert(s.subrange(q, s.len() as int) =~= members_text(ms) + seq!['}']);
    let sc0 = initial_scan();
    lemma_run_step(s, 0, sc0);
    let sc1 = Scan { state: JsonState::ObjState, keys: Seq::empty(), vals: Seq::empty(), ..sc0 };
    assert(run(s, 0, sc0) == run(s, 1, sc1));
    lemma_member(s, 1, sc1, k0, v0);
    lemma_object_rest(s, q, member_read(sc1, k0, v0), ms);
}

/// The literals `true`, `false` and `null`.
pub open spec fn literal(w: int) -> Seq<char> {
    if w == 0 {
        seq!['t', 'r', 'u', 'e']
    } else if w == 1 {
        seq!['f', 'a', 'l', 's', 'e']
    } else {
        seq!['n', 'u', 'l', 'l']
    }
}

/// The state once the first `j` letters of a literal have been read.
pub open spec fn literal_state(w: int, j: int) -> JsonState {
    if w == 0 {
        if j == 1 {
            JsonState::BoolT
        } else if j == 2 {
            JsonState::BoolR
        } else {
            JsonState::BoolU
        }
    } else if w == 1 {
        if j == 1 {
            JsonState::BoolF
        } else if j == 2 {
            JsonState::BoolA
        } else if j == 3 {
            JsonState::BoolL
        } else {
            JsonState::BoolS
        }
    } else {
        if j == 1 {
            JsonState::NulN
        } else if j == 2 {
            JsonState::NulU
        } else {
            JsonState::NulL
        }
    }
}

proof fn lemma_literal_walk(s: Seq<char>, w: int, j: int)
    requires
        0 <= w <= 2,
        1 <= j < literal(w).len(),
        j <= s.len(),
        forall|i: int| 0 <= i < j ==> s[i] == literal(w)[i],
    ensures
        run(s, 0, initial_scan()) == run(s, j, Scan { state: literal_state(w, j), ..initial_scan() }),
    decreases j,
{
    if j == 1 {
        lemma_run_step(s, 0, initial_scan());
    } else {
        lemma_literal_walk(s, w, j - 1);
        lemma_run_step(s, j - 1, Scan { state: literal_state(w, j - 1), ..initial_scan() });
    }
}

/// A text of letters that neither begins with `true`, `false` or `null` nor is the beginning
/// of one of them is malformed.
pub proof fn law_letters_malformed_all(s: Seq<char>)
    requires
        s.len() >= 1,
        forall|i: int| 0 <= i < s.len() ==> is_letter(#[trigger] s[i]),
        forall|w: int| 0 <= w <= 2 ==> !(#[trigger] literal(w)).is_prefix_of(s) && !s.is_prefix_of(
            literal(w),
        ),
    ensures
        fragment(s, 0).value is Error,
{
    if s[0] != 't' && s[0] != 'f' && s[0] != 'n' {
        lemma_run_step(s, 0, initial_scan());
    } else {
        let w: int = if s[0] == 't' {
            0
        } else if s[0] == 'f' {
            1
        } else {
            2
        };
        let lit = literal(w);
        assert(!lit.is_prefix_of(s) && !s.is_prefix_of(lit));
        assert(exists|k: int| 0 <= k < s.len() && k < lit.len() && s[k] != lit[k]) by {
            if s.len() <= lit.len() {
                assert(!(s =~= lit.subrange(0, s.len() as int)));
            } else {
                assert(!(lit =~= s.subrange(0, lit.len() as int)));
            }
        }
        let k = choose|k: int| 0 <= k < s.len() && k < lit.len() && s[k] != lit[k];
        let k0 = choose|k: int| 0 <= k < s.len() && k < lit.len() && s[k] != lit[k] && forall|i: int|
            0 <= i < k ==> s[i] == lit[i];
        assert(exists|k: int| 0 <= k < s.len() && k < lit.len() && s[k] != lit[k] && forall|i: int|
            0 <= i < k ==> s[i] == lit[i]) by {
            lemma_first_difference(s, lit, k);
        }
        assert(k0 >= 1);
        lemma_literal_walk(s, w, k0);
        assert(is_letter(s[k0]));
        lemma_run_step(s, k0, Scan { state: literal_state(w, k0), ..initial_scan() });
    }
}

proof fn lemma_first_difference(s: Seq<char>, lit: Seq<char>, k: int)
    requires
        0 <= k < s.len(),
        k < lit.len(),
        s[k] != lit[k],
    ensures
        exists|m: int| 0 <= m < s.len() && m < lit.len() && s[m] != lit[m] && forall|i: int|
            0 <= i < m ==> s[i] == lit[i],
    decreases k,
{
    if exists|i: int| 0 <= i < k && s[i] != lit[i] {
        let i = choose|i: int| 0 <= i < k && s[i] != lit[i];
        lemma_first_difference(s, lit, i);
    } else {
        assert(forall|i: int| 0 <= i < k ==> s[i] == lit[i]);
    }
}

/// `e` is a closed value text for `v`: wherever it stands in a text, a read from its start
/// gives `v`, stops at its last character, and ends on neither `,` nor `]`.
pub open spec fn closed_text(e: Seq<char>, v: Value) -> bool {
    forall|s: Seq<char>, p: int|
        0 <= p && p + e.len() <= s.len() && #[trigger] s.subrange(p, p + e.len()) == e ==> {
            let f = #[trigger] fragment(s, p);
            &&& f.value == v
            &&& f.next == p + e.len()
            &&& f.term != ','
            &&& f.term != ']'
        }
}

/// A plain string literal is a closed value text.
pub proof fn lemma_string_closed(t: Seq<char>)
    requires
        is_plain(t),
    ensures
        closed_text(quoted(t), Value::Text(t)),
{
    assert forall|s: Seq<char>, p: int|
        0 <= p && p + quoted(t).len() <= s.len() && #[trigger] s.subrange(p, p + quoted(t).len())
            == quoted(t) implies {
        let f = #[trigger] fragment(s, p);
        &&& f.value == Value::Text(t)
        &&& f.next == p + quoted(t).len()
        &&& f.term != ','
        &&& f.term != ']'
    } by {
        lemma_string_at(s, p, t);
    }
}

/// The elements after the first, each after a comma.
pub open spec fn elements_text(es: Seq<Seq<char>>) -> Seq<char>
    decreases es.len(),
{
    if es.len() == 0 {
        Seq::empty()
    } else {
        seq![','] + es[0] + elements_text(es.drop_first())
    }
}

pub open spec fn all_closed(es: Seq<Seq<char>>, vs: Seq<Value>) -> bool {
    &&& es.len() == vs.len()
    &&& forall|i: int| 0 <= i < es.len() ==> closed_text(#[trigger] es[i], vs[i])
}

proof fn lemma_closed_rest(s: Seq<char>, pos: int, sc: Scan, es: Seq<Seq<char>>, vs: Seq<Value>)
    requires
        0 <= pos < s.len(),
        sc.state == JsonState::ArrState || sc.state == JsonState::ArrNext,
        all_closed(es, vs),
        s.subrange(pos, s.len() as int) == elements_text(es) + seq![']'],
    ensures
        run(s, pos, sc) == (Frag { value: Value::Arr(sc.arr + vs), term: ']', next: s.len() as int }),
    decreases es.len(),
{
    let rest_text = s.subrange(pos, s.len() as int);
    if es.len() == 0 {
        assert(rest_text =~= seq![']']);
        assert(s[pos] == rest_text[0]);
        lemma_run_step(s, pos, sc);
        assert(sc.arr + vs =~= sc.arr);
    } else {
        let e0 = es[0];
        let v0 = vs[0];
        let rest = es.drop_first();
        let vrest = vs.drop_first();
        assert(closed_text(e0, v0));
        assert(all_closed(rest, vrest)) by {
            assert forall|i: int| 0 <= i < rest.len() implies closed_text(#[trigger] rest[i], vrest[i]) by {
                assert(rest[i] == es[i + 1] && vrest[i] == vs[i + 1]);
            }
        }
        let q = pos + 1 + e0.len();
        assert(rest_text =~= seq![','] + e0 + (elements_text(rest) + seq![']']));
        assert(s[pos] == rest_text[0]);
        assert(s.subrange(pos + 1, pos + 1 + e0.len()) =~= e0) by {
            assert forall|i: int| 0 <= i < e0.len() implies s.subrange(pos + 1, pos + 1 + e0.len())[i]
                == e0[i] by {
                assert(s[pos + 1 + i] == rest_text[1 + i]);
            }
        }
        assert(s.subrange(q, s.len() as int) =~= elements_text(rest) + seq![']']) by {
            assert forall|i: int| 0 <= i < s.len() - q implies s.subrange(q, s.len() as int)[i]
                == (elements_text(rest) + seq![']'])[i] by {
                assert(s[q + i] == rest_text[1 + e0.len() + i]);
            }
        }
        let f = fragment(s, pos + 1);
        assert(f.value == v0 && f.next == q && f.term != ',' && f.term != ']');
        lemma_run_step(s, pos, sc);
        let sc2 = Scan { arr: sc.arr.push(v0), ..sc };
        if sc.state == JsonState::ArrState {
            lemma_elements_step(s, pos + 1, sc, ',', false);
            assert(run(s, pos, sc) == run(s, q, Scan { state: JsonState::ArrNext, ..sc2 }));
            lemma_closed_rest(s, q, Scan { state: JsonState::ArrNext, ..sc2 }, rest, vrest);
        } else {
            lemma_elements_step(s, pos + 1, sc, ',', true);
            assert(run(s, pos, sc) == run(s, q, Scan { state: JsonState::ArrState, ..sc2 }));
            lemma_closed_rest(s, q, Scan { state: JsonState::ArrState, ..sc2 }, rest, vrest);
        }
        assert(sc.arr.push(v0) + vrest =~= sc.arr + vs);
    }
}

/// An array whose elements are closed value texts reads back as the array of their values,
/// of the same length and in the same order, and the whole text is consumed.
pub proof fn law_closed_array(es: Seq<Seq<char>>, vs: Seq<Value>)
    requires
        es.len() >= 1,
        all_closed(es, vs),
    ensures
        fragment(seq!['['] + es[0] + elements_text(es.drop_first()) + seq![']'], 0) == (Frag {
            value: Value::Arr(vs),
            term: ']',
            next: es[0].len() + elements_text(es.drop_first()).len() + 2int,
        }),
{
    let e0 = es[0];
    let rest = es.drop_first();
    let vrest = vs.drop_first();
    let s = seq!['['] + e0 + elements_text(rest) + seq![']'];
    let q: int = e0.len() + 1int;
    assert(s[0] == '[');
    assert(s.subrange(1, q) =~= e0);
    assert(s.subrange(q, s.len() as int) =~= elements_text(rest) + seq![']']);
    assert(closed_text(e0, vs[0]));
    let f = fragment(s, 1);
    assert(f.value == vs[0] && f.next == q && f.term != ',' && f.term != ']');
    assert(all_closed(rest, vrest)) by {
        assert forall|i: int| 0 <= i < rest.len() implies closed_text(#[trigger] rest[i], vrest[i]) by {
            assert(rest[i] == es[i + 1] && vrest[i] == vs[i + 1]);
        }
    }
    let sc0 = initial_scan();
    lemma_run_step(s, 0, sc0);
    lemma_elements_step(s, 1, sc0, '[', true);
    let sc1 = Scan { state: JsonState::ArrState, arr: seq![vs[0]], ..sc0 };
    assert(sc0.arr.push(vs[0]) =~= seq![vs[0]]);
    assert(run(s, 0, sc0) == run(s, q, sc1));
    lemma_closed_rest(s, q, sc1, rest, vrest);
    assert(seq![vs[0]] + vrest =~= vs);
}

/// The value of a literal.
pub open spec fn literal_value(w: int) -> Value {
    if w == 0 {
        Value::Bool(true)
    } else if w == 1 {
        Value::Bool(false)
    } else {
        Value::Null
    }
}

proof fn lemma_literal_walk_at(s: Seq<char>, p: int, w: int, j: int)
    requires
        0 <= w <= 2,
        0 <= p,
        1 <= j < literal(w).len(),
        p + j <= s.len(),
        forall|i: int| 0 <= i < j ==> s[p + i] == literal(w)[i],
    ensures
        run(s, p, initial_scan()) == run(s, p + j, Scan { state: literal_state(w, j), ..initial_scan() }),
    decreases j,
{
    if j == 1 {
        assert(s[p + 0] == literal(w)[0]);
        lemma_run_step(s, p, initial_scan());
    } else {
        lemma_literal_walk_at(s, p, w, j - 1);
        assert(s[p + (j - 1)] == literal(w)[j - 1]);
        lemma_run_step(s, p + j - 1, Scan { state: literal_state(w, j - 1), ..initial_scan() });
    }
}

/// `true`, `false` and `null` are closed value texts.
pub proof fn lemma_literal_closed(w: int)
    requires
        0 <= w <= 2,
    ensures
        closed_text(literal(w), literal_value(w)),
{
    let e = literal(w);
    assert forall|s: Seq<char>, p: int|
        0 <= p && p + e.len() <= s.len() && #[trigger] s.subrange(p, p + e.len()) == e implies {
        let f = #[trigger] fragment(s, p);
        &&& f.value == literal_value(w)
        &&& f.next == p + e.len()
        &&& f.term != ','
        &&& f.term != ']'
    } by {
        assert forall|i: int| 0 <= i < e.len() implies s[p + i] == e[i] by {
            assert(s.subrange(p, p + e.len())[i] == s[p + i]);
        }
        let j = e.len() - 1;
        lemma_literal_walk_at(s, p, w, j);
        assert(s[p + j] == e[j]);
        lemma_run_step(s, p + j, Scan { state: literal_state(w, j), ..initial_scan() });
    }
}

} // verus!
