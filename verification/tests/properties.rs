use ucl::{array, json_array, json_value, key_value, multi_line_string, object, parse, value};
use ucl::{Decimal, Key, Object, Value};

fn decimal(mantissa: i64, exponent: i32) -> Value {
    Value::from(Decimal::new(mantissa, exponent).unwrap())
}

fn numbers(items: &[i64]) -> Value {
    Value::from(items.iter().map(|n| Value::from(*n)).collect::<Vec<Value>>())
}

fn object_of(pairs: Vec<(&str, Value)>) -> Value {
    let mut o = Object::new();
    for (name, v) in pairs {
        o.insert(name.to_owned(), v);
    }
    Value::from(o)
}

#[test]
fn parsing_is_a_function_of_the_text() {
    let text = "a = 1; b { c = [1, 2, x]; d = 1.5min } b { e = null }";
    let copy = text.to_owned();
    assert_eq!(parse(text), parse(&copy));
    assert_eq!(parse("a = ;"), parse("a = ;"));
}

#[test]
fn duplicate_keys_fold_into_an_array() {
    let expected = object_of(vec![("a", numbers(&[1, 2, 3]))]);
    assert_eq!(parse("a=1;a=2;a=3").unwrap(), expected);
    assert_eq!(object("{a=1;a=2;a=3}").unwrap(), expected);
    let inner = parse("o { a=1;a=2;a=3 }").unwrap();
    assert_eq!(inner["o"], expected);
}

#[test]
fn an_array_under_a_repeated_key_grows() {
    let v = parse("a=[1,2];a=3").unwrap();
    assert_eq!(v["a"], numbers(&[1, 2, 3]));
    let v = parse("a=1;a=[2,3]").unwrap();
    assert_eq!(v["a"], Value::from(vec![Value::from(1), numbers(&[2, 3])]));
}

#[test]
fn null_gives_way_to_a_later_value() {
    assert_eq!(parse("a=null;a=5").unwrap(), object_of(vec![("a", Value::from(5))]));
    assert_eq!(parse("a=null;a=null").unwrap(), object_of(vec![("a", Value::Null)]));
    assert_eq!(
        parse("a=5;a=null").unwrap(),
        object_of(vec![("a", Value::from(vec![Value::from(5), Value::Null]))])
    );
}

#[test]
fn compound_keys_expand_into_nested_objects() {
    let expected =
        object_of(vec![("a", object_of(vec![("b", object_of(vec![("c", Value::from(1))]))]))]);
    assert_eq!(parse("a b c = 1;").unwrap(), expected);
    assert_eq!(parse("a.b.c = 1;").unwrap(), expected);
    assert_eq!(parse("a \"b\".c : 1").unwrap(), expected);
    assert_eq!(parse("a b { c = 1 }").unwrap(), expected);
}

#[test]
fn a_quoted_key_keeps_its_dots() {
    let v = parse("\"a.b\" = 1").unwrap();
    assert_eq!(v, object_of(vec![("a.b", Value::from(1))]));
}

#[test]
fn sections_of_one_name_fold_and_compound_paths_merge() {
    let v = parse("k { host{port=900} host{port=901} }").unwrap();
    assert_eq!(
        v["k"]["host"],
        Value::from(vec![
            object_of(vec![("port", Value::from(900))]),
            object_of(vec![("port", Value::from(901))]),
        ])
    );
    let v = parse("a.b=1; a.c=2").unwrap();
    assert_eq!(
        v,
        object_of(vec![("a", object_of(vec![("b", Value::from(1)), ("c", Value::from(2))]))])
    );
}

#[test]
fn a_single_key_and_a_compound_key_meet_in_a_merge() {
    let v = parse("a { x = 1 } a b = 2").unwrap();
    assert_eq!(
        v,
        object_of(vec![("a", object_of(vec![("x", Value::from(1)), ("b", Value::from(2))]))])
    );
    let v = parse("a b = 2; a = 7").unwrap();
    assert_eq!(v, object_of(vec![("a", Value::from(7))]));
    let v = parse("a = 7; a b = 2").unwrap();
    assert_eq!(v, object_of(vec![("a", object_of(vec![("b", Value::from(2))]))]));
}

#[test]
fn merge_recurses_where_both_sides_are_objects() {
    let v = parse("a.b.c = 1; a.b.d = 2; a.e = 3").unwrap();
    assert_eq!(
        v["a"],
        object_of(vec![
            ("b", object_of(vec![("c", Value::from(1)), ("d", Value::from(2))])),
            ("e", Value::from(3)),
        ])
    );
}

#[test]
fn multipliers_keep_whole_numbers_whole() {
    assert_eq!(value("1k").unwrap(), Value::from(1000));
    assert_eq!(value("1m").unwrap(), Value::from(1_000_000));
    assert_eq!(value("1g").unwrap(), Value::from(1_000_000_000));
    assert_eq!(value("1kb").unwrap(), Value::from(1024));
    assert_eq!(value("1mb").unwrap(), Value::from(1024 * 1024));
    assert_eq!(value("1gb").unwrap(), Value::from(1024 * 1024 * 1024));
    assert_eq!(value("-3kb").unwrap(), Value::from(-3072));
    assert_eq!(value("+7").unwrap(), Value::from(7));
    assert_eq!(value("0x10k").unwrap(), Value::from(16000));
    assert_eq!(value("-0x1F").unwrap(), Value::from(-31));
    assert_eq!(value("0").unwrap(), Value::from(0));
    assert_eq!(value("-0").unwrap(), Value::from(0));
}

#[test]
fn multipliers_on_fractions_give_floats() {
    assert_eq!(value("1.5k").unwrap(), decimal(1500, 0));
    assert_eq!(value("1.5k").unwrap(), decimal(15, 2));
    assert_eq!(value("0.5kb").unwrap(), decimal(512, 0));
    assert_eq!(value("1e3").unwrap(), decimal(1, 3));
    assert_eq!(value("1E3").unwrap(), decimal(1000, 0));
    assert_eq!(value("25e-1").unwrap(), decimal(25, -1));
    assert_eq!(value("2.50").unwrap(), decimal(25, -1));
    assert_eq!(value("1.0").unwrap(), decimal(1, 0));
    assert_eq!(value("0.0").unwrap(), decimal(0, 0));
    assert_eq!(value("-0.0").unwrap(), decimal(0, 0));
    assert_eq!(value("1.5e+2").unwrap(), decimal(150, 0));
}

#[test]
fn units_of_time_give_seconds_as_floats() {
    assert_eq!(value("10ms").unwrap(), decimal(1, -2));
    assert_eq!(value("1.2min").unwrap(), decimal(72, 0));
    assert_eq!(value("3s").unwrap(), decimal(3, 0));
    assert_eq!(value("2min").unwrap(), decimal(120, 0));
    assert_eq!(value("1h").unwrap(), decimal(3600, 0));
    assert_eq!(value("1hour").unwrap(), decimal(3600, 0));
    assert_eq!(value("1d").unwrap(), decimal(86400, 0));
    assert_eq!(value("1day").unwrap(), decimal(86400, 0));
    assert_eq!(value("7d").unwrap(), decimal(604800, 0));
    assert_eq!(value("1w").unwrap(), decimal(604800, 0));
    assert_eq!(value("0.5w").unwrap(), decimal(302400, 0));
    assert_eq!(value("-1.5s").unwrap(), decimal(-15, -1));
    assert_eq!(value("0x10s").unwrap(), decimal(16, 0));
}

#[test]
fn words_that_are_no_numbers_are_strings() {
    for word in [
        "10x", "1.", ".5", "1e", "1kB", "0x", "0xg", "--1", "1..2", "1days", "tru", "nulls", "-",
        "+", "1e+", "1_000", "k", "ms",
    ] {
        assert_eq!(value(word).unwrap(), Value::from(word));
    }
}

#[test]
fn a_heredoc_ends_at_its_own_terminator_only() {
    assert_eq!(multi_line_string("<<EOD\nEOD\n").unwrap(), "");
    assert_eq!(multi_line_string("<<EOD\nEOD").unwrap(), "");
    assert_eq!(multi_line_string("<<EOD\nfoo\nEOF\nEOD\n").unwrap(), "foo\nEOF");
    assert_eq!(multi_line_string("<<EOD\n EOD\nEOD \nEODX\nEOD\n").unwrap(), " EOD\nEOD \nEODX");
    assert_eq!(multi_line_string("<<EOD\nsays EOD\nEOD\n").unwrap(), "says EOD");
    assert_eq!(multi_line_string("<<EOD\n\nEOD\n").unwrap(), "");
    assert_eq!(multi_line_string("<<EOD\n\n\nEOD\n").unwrap(), "\n");
    let v = parse("a = <<X\n{ not = parsed }\nX\nb = 1").unwrap();
    assert_eq!(v["a"], Value::from("{ not = parsed }"));
    assert_eq!(v["b"], Value::from(1));
}

#[test]
fn json_is_read_alike_by_both_grammars() {
    for text in [
        "100",
        "-1.5e3",
        "true",
        "null",
        "\"a \\\"quoted\\\" \\u0041\"",
        "[]",
        "{}",
        "[1, \"two\", true, null, [3, 4], {\"k\": [5]}]",
        "{\"a\": 1, \"b\": {\"c\": [1, 2, {\"d\": null}]}, \"a\": 2}",
        " [ 1 ,\n 2 ] ",
    ] {
        let by_json = json_value(text).unwrap();
        assert_eq!(value(text).unwrap(), by_json);
        let doc = parse(&format!("k = {}\nafter = 1", text)).unwrap();
        assert_eq!(doc["k"], by_json);
        let nested = parse(&format!("s {{ k : {}; }}", text)).unwrap();
        assert_eq!(nested["s"]["k"], by_json);
    }
    assert_eq!(
        json_array("[1, [2], {\"a\": 3}]").unwrap(),
        array("[1, [2], {\"a\": 3}]").unwrap()
    );
}

#[test]
fn the_json_grammar_takes_canonical_punctuation_only() {
    assert!(json_value("{a: 1}").is_err());
    assert!(json_value("{\"a\" = 1}").is_err());
    assert!(json_value("{\"a\": 1,}").is_err());
    assert!(json_value("{\"a\": 1 \"b\": 2}").is_err());
    assert!(json_value("[1 2]").is_err());
    assert!(json_value("[1,]").is_err());
    assert!(json_value("foo").is_err());
    assert!(json_value("1k").is_err());
    assert!(json_value("0x10").is_err());
    assert!(json_value("+1").is_err());
    assert!(json_array("{}").is_err());
    assert!(json_array("1").is_err());
}

#[test]
fn indexing_walks_the_tree() {
    let tree = parse("section{flag=true}").unwrap();
    assert_eq!(tree["section"]["flag"].unwrap::<bool>(), true);
    assert_eq!(tree.get("missing"), None);
    assert_eq!(tree["section"].get("missing"), None);
    assert_eq!(tree["section"]["flag"].get("flag"), None);
    assert_eq!(tree.get("section").unwrap().get("flag"), Some(&Value::from(true)));
    assert_eq!(tree.get_or("missing", 7i64), 7);
    assert_eq!(tree["section"].get_or("flag", false), true);
    assert_eq!(tree["section"].get_or("flag", 3i64), 3);
    assert_eq!(tree["section"]["flag"].unwrap_or(String::from("x")), "x");
    assert_eq!(tree["section"]["flag"].unwrap_or(false), true);
}

#[test]
fn terminators_are_lenient() {
    let expected = object_of(vec![("a", Value::from(1)), ("b", Value::from(2))]);
    for text in [
        "a=1;b=2;",
        "a=1\nb=2\n",
        "a = 1 b = 2",
        "a: 1, b: 2",
        "a=1;b=2",
        "{a=1;b=2}",
        " { a = 1 ; b = 2 ; } ",
        "a=1 # one\nb=2 /* two */",
        "/* lead */ a = 1;\n# more\n b = 2",
    ] {
        assert_eq!(parse(text).unwrap(), expected);
    }
    assert_eq!(parse("").unwrap(), Value::from(Object::new()));
    assert_eq!(parse(" \n# nothing\n").unwrap(), Value::from(Object::new()));
}

#[test]
fn arrays_take_commas_or_blanks() {
    assert_eq!(array("[1 2 3]").unwrap(), numbers(&[1, 2, 3]));
    assert_eq!(array("[1,2,3,]").unwrap(), numbers(&[1, 2, 3]));
    assert_eq!(array("[1\n2 # two\n,3]").unwrap(), numbers(&[1, 2, 3]));
    assert_eq!(array(" [ ] ").unwrap(), Value::Array(vec![]));
}

#[test]
fn quoted_strings_take_escapes() {
    assert_eq!(
        value(r#""a\"b\\c\/d\be\ff\ng\rh\ti""#).unwrap(),
        Value::from("a\"b\\c/d\u{8}e\u{c}f\ng\rh\ti")
    );
    assert_eq!(value(r#""\u0041\u00e9\u20AC""#).unwrap(), Value::from("A\u{e9}\u{20ac}"));
    assert_eq!(value(r#""\ud83d\ude00 \uD834\uDD1E""#).unwrap(), Value::from("\u{1f600} \u{1d11e}"));
    assert_eq!(value("\"two\nlines\"").unwrap(), Value::from("two\nlines"));
    assert_eq!(value("\"{ } [ ] = ; , : #\"").unwrap(), Value::from("{ } [ ] = ; , : #"));
    assert_eq!(value("\"\"").unwrap(), Value::from(""));
}

#[test]
fn a_pair_stands_alone() {
    assert_eq!(
        key_value("a b = 1").unwrap(),
        (Key::from(vec!["a".to_owned(), "b".to_owned()]), Value::from(1))
    );
    assert_eq!(key_value(" a : [1] , ").unwrap(), (Key::from("a"), numbers(&[1])));
    assert!(key_value("a = 1; b = 2").is_err());
}

/// A small generator of numbers that is the same on every run.
struct Dice(u64);

impl Dice {
    fn roll(&mut self, sides: usize) -> usize {
        self.0 = self.0.wrapping_mul(6364136223846793005).wrapping_add(1442695040888963407);
        ((self.0 >> 33) as usize) % sides
    }
}

fn random_json(dice: &mut Dice, depth: usize, out: &mut String) {
    let kinds = if depth == 0 { 5 } else { 7 };
    match dice.roll(kinds) {
        0 => out.push_str(&format!("{}", dice.roll(2000) as i64 - 1000)),
        1 => out.push_str(&format!("{}.{}e{}", dice.roll(50), dice.roll(1000), dice.roll(9))),
        2 => out.push_str(["true", "false", "null"][dice.roll(3)]),
        3 => out.push_str(&format!("\"s{}\"", dice.roll(10))),
        4 => out.push_str("\"a\\n\\u0062\\\"\""),
        5 => {
            out.push('[');
            let n = dice.roll(4);
            for i in 0..n {
                if i > 0 {
                    out.push_str([",", " , ", ",\n"][dice.roll(3)]);
                }
                random_json(dice, depth - 1, out);
            }
            out.push(']');
        }
        _ => {
            out.push('{');
            let n = dice.roll(4);
            for i in 0..n {
                if i > 0 {
                    out.push_str(", ");
                }
                out.push_str(&format!("\"k{}\": ", dice.roll(3)));
                random_json(dice, depth - 1, out);
            }
            out.push('}');
        }
    }
}

#[test]
fn generated_json_is_read_alike_by_both_grammars() {
    let mut dice = Dice(7);
    for _ in 0..400 {
        let mut text = String::new();
        random_json(&mut dice, 4, &mut text);
        let by_json = json_value(&text).unwrap();
        assert_eq!(value(&text).unwrap(), by_json);
        let doc = parse(&format!("k = {}", text)).unwrap();
        assert_eq!(doc["k"], by_json);
    }
}

#[test]
fn any_text_is_parsed_or_refused_at_a_place_within_it() {
    let alphabet: Vec<char> = "ab1.-+e0x{}[]=;,:\"\\ \n#/*<EOD k\u{e9}".chars().collect();
    let mut dice = Dice(11);
    for _ in 0..3000 {
        let len = dice.roll(24);
        let text: String = (0..len).map(|_| alphabet[dice.roll(alphabet.len())]).collect();
        let size = text.chars().count();
        for result in [parse(&text), value(&text), json_value(&text), object(&text), array(&text)]
        {
            if let Err(e) = result {
                assert!(e.offset <= size);
                assert!(e.line <= e.offset && e.column <= e.offset);
            }
        }
        assert_eq!(parse(&text), parse(&text.clone()));
        if let Ok(pair) = key_value(&text) {
            assert_eq!(Value::from(vec![pair.clone()]), Value::from(vec![pair]));
        }
        let _ = multi_line_string(&text);
    }
}
