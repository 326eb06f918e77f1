use simple_json::{
    esc_quotes, get_path_as_text, parse, parse_fragment, JsonCursor, JsonData, JsonNumber, JsonStr,
};

fn number(negative: bool, integer: &[u8], fraction: &[u8], exp_negative: bool, exponent: &[u8]) -> JsonData {
    JsonData::Num(JsonNumber {
        negative,
        integer: integer.to_vec(),
        fraction: fraction.to_vec(),
        exp_negative,
        exponent: exponent.to_vec(),
    })
}

fn as_f64(v: &JsonData) -> f64 {
    match v {
        JsonData::Num(n) => {
            let mut t = String::new();
            if n.negative {
                t.push('-');
            }
            for d in &n.integer {
                t.push((b'0' + d) as char);
            }
            t.push('.');
            for d in &n.fraction {
                t.push((b'0' + d) as char);
            }
            if n.fraction.is_empty() {
                t.push('0');
            }
            if !n.exponent.is_empty() {
                t.push('e');
                if n.exp_negative {
                    t.push('-');
                }
                for d in &n.exponent {
                    t.push((b'0' + d) as char);
                }
            }
            t.parse::<f64>().unwrap()
        }
        _ => panic!("not a number: {:?}", v),
    }
}

fn text(s: &str) -> JsonData {
    JsonData::Text(s.to_string())
}

fn object(members: Vec<(&str, JsonData)>) -> JsonData {
    let mut names = Vec::new();
    let mut values = Vec::new();
    for (k, v) in members {
        names.push(k.to_string());
        values.push(v);
    }
    JsonData::Data(names, values)
}

fn member<'a>(v: &'a JsonData, name: &str) -> &'a JsonData {
    match v {
        JsonData::Data(names, values) => {
            let i = names.iter().position(|k| k == name).expect("member present");
            &values[i]
        }
        _ => panic!("not an object: {:?}", v),
    }
}

#[test]
fn literals_parse() {
    assert_eq!(parse("true"), JsonData::Bool(true));
    assert_eq!(parse("false"), JsonData::Bool(false));
    assert_eq!(parse("null"), JsonData::Null);
}

#[test]
fn other_letters_are_malformed() {
    assert_eq!(parse("xyz"), JsonData::Error("an error: state Start for x at 1:1".to_string()));
    assert_eq!(parse("tx"), JsonData::Error("an error: state BoolT for x at 2:1".to_string()));
    assert_eq!(parse("nil"), JsonData::Error("an error: state NulN for i at 2:1".to_string()));
    assert_eq!(parse("bad"), JsonData::Error("an error: state Start for b at 1:1".to_string()));
}

#[test]
fn array_with_object_empty_object_and_number() {
    let v = parse("[{\"name\":\"malina\",\"age\":19},{},45.8]");
    match &v {
        JsonData::Arr(items) => {
            assert_eq!(items.len(), 3);
            assert_eq!(member(&items[0], "name"), &text("malina"));
            assert_eq!(as_f64(member(&items[0], "age")), 19.0);
            assert_eq!(items[1], JsonData::Absent);
            assert_eq!(as_f64(&items[2]), 45.8);
        }
        _ => panic!("not an array: {:?}", v),
    }
}

#[test]
fn array_of_numbers_and_literals() {
    let v = parse("[0.56e-2,5,32,54.08,-5.6,null,false,true]");
    match &v {
        JsonData::Arr(items) => {
            assert_eq!(items.len(), 8);
            assert_eq!(as_f64(&items[0]), 0.0056);
            assert_eq!(as_f64(&items[1]), 5.0);
            assert_eq!(as_f64(&items[2]), 32.0);
            assert_eq!(as_f64(&items[3]), 54.08);
            assert_eq!(as_f64(&items[4]), -5.6);
            assert_eq!(items[5], JsonData::Null);
            assert_eq!(items[6], JsonData::Bool(false));
            assert_eq!(items[7], JsonData::Bool(true));
            assert_eq!(items[0], number(false, &[0], &[5, 6], true, &[2]));
        }
        _ => panic!("not an array: {:?}", v),
    }
}

#[test]
fn streaming_two_objects_then_end() {
    let mut values = JsonStr::new("{\"a\":1} {\"b\":2}");
    assert_eq!(values.next(), Some(object(vec![("a", number(false, &[1], &[], false, &[]))])));
    assert_eq!(values.next(), Some(object(vec![("b", number(false, &[2], &[], false, &[]))])));
    assert_eq!(values.next(), None);
}

#[test]
fn streaming_lines_of_values() {
    let mut values = JsonStr::new("{\"simple\":\"json\"}\n {\"another\":true} [\"again\",\"stop\"]\n");
    assert_eq!(values.next(), Some(object(vec![("simple", text("json"))])));
    assert_eq!(values.next(), Some(object(vec![("another", JsonData::Bool(true))])));
    assert_eq!(values.next(), Some(JsonData::Arr(vec![text("again"), text("stop")])));
    assert_eq!(values.next(), None);
}

#[test]
fn path_lookup_through_objects() {
    let v = parse("{\"husband\":{\"name\":\"Josef\",\"age\":65}}");
    assert_eq!(get_path_as_text(&v, "husband/name"), Some("Josef".to_string()));
    assert_eq!(get_path_as_text(&v, "husband/age"), None);
    assert_eq!(get_path_as_text(&v, "wife/name"), None);
}

#[test]
fn path_lookup_passes_over_non_objects() {
    let v = parse("{\"husband\":{\"name\":\"Josef\",\"age\":65}}");
    assert_eq!(get_path_as_text(&v, "husband/name/x"), Some("Josef".to_string()));
    assert_eq!(get_path_as_text(&v, "husband/age/x"), None);
    assert_eq!(get_path_as_text(&text("plain"), "a/b"), Some("plain".to_string()));
}

#[test]
fn surrogate_pair_decodes() {
    assert_eq!(parse("\"\\uD83D\\uDE00\""), text("\u{1F600}"));
    assert_eq!(parse("\"a\\u00e9b\""), text("a\u{e9}b"));
}

#[test]
fn unpaired_surrogate_gives_replacement() {
    assert_eq!(parse("\"\\uDE00\\uDE00\""), text("\u{FFFD}"));
}

#[test]
fn escapes_in_strings() {
    assert_eq!(parse("\"a\\tb\\nc\\/\\\\\\\"\\r\\f\\b\""), text("a\tb\nc/\\\"\r\u{c}\u{8}"));
    assert_eq!(parse("\"\\q\""), text("\\q"));
    assert_eq!(parse("\" spaced  out \""), text(" spaced  out "));
}

#[test]
fn escapes_in_names() {
    let v = parse("{\"a\\\"b\":1}");
    assert_eq!(v, object(vec![("a\"b", number(false, &[1], &[], false, &[]))]));
}

#[test]
fn duplicate_names_keep_last() {
    let v = parse("{\"a\":1,\"a\":2}");
    assert_eq!(v, object(vec![("a", number(false, &[2], &[], false, &[]))]));
}

#[test]
fn number_components() {
    assert_eq!(parse("[-12.50e3]"), JsonData::Arr(vec![number(true, &[1, 2], &[5, 0], false, &[3])]));
    assert_eq!(parse("[1.2E03]"), JsonData::Arr(vec![number(false, &[1], &[2], false, &[0, 3])]));
    assert_eq!(as_f64(&number(false, &[1], &[2], false, &[0, 3])), 1200.0);
}

#[test]
fn empty_inputs_give_absent() {
    assert_eq!(parse(""), JsonData::Absent);
    assert_eq!(parse("   "), JsonData::Absent);
    assert_eq!(parse("{}"), JsonData::Absent);
    assert_eq!(parse("[]"), JsonData::Absent);
    assert_eq!(parse("42"), JsonData::Absent);
}

#[test]
fn malformed_number_diagnostics() {
    assert_eq!(parse("1..5,"), JsonData::Error("an error happened".to_string()));
    assert_eq!(parse("[1.5 ]"), JsonData::Arr(vec![number(false, &[1], &[5], false, &[])]));
    assert_eq!(parse("1e+5,"), JsonData::Error("an error: state ExpExpValue for + at 3:1".to_string()));
}

#[test]
fn diagnostics_count_lines() {
    assert_eq!(parse("\n\nx y"), JsonData::Error("an error: state Start for x at 1:3".to_string()));
}

#[test]
fn errors_stay_in_their_container() {
    let v = parse("[1,tx,3]");
    match &v {
        JsonData::Arr(items) => {
            assert_eq!(items[0], number(false, &[1], &[], false, &[]));
            assert_eq!(items[1], JsonData::Error("an error: state BoolT for x at 5:1".to_string()));
        }
        _ => panic!("not an array: {:?}", v),
    }
}

#[test]
fn fragments_hand_back_their_terminator() {
    let mut c = JsonCursor::new("12,\"ab\" 3");
    let (v, t) = parse_fragment(&mut c);
    assert_eq!(v, number(false, &[1, 2], &[], false, &[]));
    assert_eq!(t, ',');
    let (v, t) = parse_fragment(&mut c);
    assert_eq!(v, text("ab"));
    assert_eq!(t, '"');
    let (v, t) = parse_fragment(&mut c);
    assert_eq!(v, JsonData::Absent);
    assert_eq!(t, '\0');
    assert!(c.at_end());
}

#[test]
fn nested_arrays() {
    let v = parse("[[0,5],[3,0.2]]");
    assert_eq!(v, JsonData::Arr(vec![
        JsonData::Arr(vec![number(false, &[0], &[], false, &[]), number(false, &[5], &[], false, &[])]),
        JsonData::Arr(vec![number(false, &[3], &[], false, &[]), number(false, &[0], &[2], false, &[])]),
    ]));
}

#[test]
fn escaping_quotes_and_backslashes() {
    assert_eq!(esc_quotes("a\"b\\c".to_string()), "a\\\"b\\\\c".to_string());
    assert_eq!(esc_quotes("plain".to_string()), "plain".to_string());
    assert_eq!(esc_quotes(String::new()), String::new());
}

#[test]
fn number_text_reads_back() {
    let mut c = JsonCursor::new("-12.5e-3,");
    let (v, t) = parse_fragment(&mut c);
    assert_eq!(v, number(true, &[1, 2], &[5], true, &[3]));
    assert_eq!(t, ',');
    assert!(c.at_end());
    assert_eq!(as_f64(&v), -0.0125);
    let mut c = JsonCursor::new("7}");
    assert_eq!(parse_fragment(&mut c), (number(false, &[7], &[], false, &[]), '}'));
}

#[test]
fn plain_string_reads_back() {
    let mut c = JsonCursor::new("\"line one\nline two\" rest");
    let (v, t) = parse_fragment(&mut c);
    assert_eq!(v, text("line one\nline two"));
    assert_eq!(t, '"');
    assert!(!c.at_end());
}

#[test]
fn two_letter_starts_are_malformed() {
    assert_eq!(parse("qq"), JsonData::Error("an error: state Start for q at 1:1".to_string()));
    assert_eq!(parse("fx"), JsonData::Error("an error: state BoolF for x at 2:1".to_string()));
    assert_eq!(parse("Ab"), JsonData::Error("an error: state Start for A at 1:1".to_string()));
}

#[test]
fn array_of_strings_keeps_order() {
    assert_eq!(parse("[\"a\",\"b\",\"c\"]"), JsonData::Arr(vec![text("a"), text("b"), text("c")]));
    assert_eq!(parse("[\"only\"]"), JsonData::Arr(vec![text("only")]));
    let mut c = JsonCursor::new("[\"x y\",\"\"]");
    assert_eq!(parse_fragment(&mut c), (JsonData::Arr(vec![text("x y"), text("")]), ']'));
    assert!(c.at_end());
}

#[test]
fn whitespace_ends_any_number() {
    assert_eq!(parse("[1.5 , 2]"), JsonData::Arr(vec![
        number(false, &[1], &[5], false, &[]),
        number(false, &[2], &[], false, &[]),
    ]));
    let mut c = JsonCursor::new("2.5e1\n");
    assert_eq!(parse_fragment(&mut c), (number(false, &[2], &[5], false, &[1]), '\n'));
}

#[test]
fn element_after_comma_can_end_the_array() {
    assert_eq!(parse("[\"a\" ,\"b\"]"), JsonData::Arr(vec![text("a"), text("b")]));
    assert_eq!(parse("[\"a\" ,1, 2]"), JsonData::Arr(vec![
        text("a"),
        number(false, &[1], &[], false, &[]),
        number(false, &[2], &[], false, &[]),
    ]));
}

#[test]
fn malformed_unicode_escape_adds_nothing() {
    assert_eq!(parse("\"a\\uZZZZb\""), text("ab"));
    assert_eq!(parse("\"\\u00G1x\""), text("x"));
}

#[test]
fn single_letter_is_malformed() {
    assert_eq!(parse("x"), JsonData::Error("an error: state Start for x at 1:1".to_string()));
    assert_eq!(parse("e"), JsonData::Error("an error: state Start for e at 1:1".to_string()));
}

#[test]
fn object_of_strings_sets_members_in_order() {
    assert_eq!(
        parse("{\"a\":\"x\",\"b\":\"y\",\"a\":\"z\"}"),
        JsonData::Data(vec!["a".to_string(), "b".to_string()], vec![text("z"), text("y")])
    );
    let mut c = JsonCursor::new("{\"k\":\"v\"}");
    assert_eq!(parse_fragment(&mut c), (object(vec![("k", text("v"))]), '\0'));
    assert!(c.at_end());
}

#[test]
fn letters_departing_from_a_literal_are_malformed() {
    assert_eq!(parse("trux"), JsonData::Error("an error: state BoolU for x at 4:1".to_string()));
    assert_eq!(parse("falsy"), JsonData::Error("an error: state BoolS for y at 5:1".to_string()));
    assert_eq!(parse("nulL"), JsonData::Error("an error: state NulL for L at 4:1".to_string()));
}

#[test]
fn escapes_in_names_are_decoded() {
    assert_eq!(parse("{\"a\\tb\":1}"), object(vec![("a\tb", number(false, &[1], &[], false, &[]))]));
    assert_eq!(
        parse("{\"n\\n\\u0041\\q\":true}"),
        object(vec![("n\nA\\q", JsonData::Bool(true))])
    );
}

#[test]
fn backslash_before_whitespace_is_kept() {
    assert_eq!(parse("\"a\\ b\""), text("a\\ b"));
}

#[test]
fn diagnostics_count_columns_across_the_text() {
    assert_eq!(parse("[1,\n  tx]"), JsonData::Arr(vec![
        number(false, &[1], &[], false, &[]),
        JsonData::Error("an error: state BoolT for x at 4:2".to_string()),
    ]));
}

#[test]
fn array_of_closed_values_keeps_order() {
    assert_eq!(
        parse("[true,\"a\",null,false,\"b\"]"),
        JsonData::Arr(vec![JsonData::Bool(true), text("a"), JsonData::Null, JsonData::Bool(false), text("b")])
    );
}
