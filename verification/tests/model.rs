use ucl::{construct_object, parse, Array, Decimal, FromUcl, Key, Object, Value};

fn name(s: &str) -> String {
    s.to_owned()
}

#[test]
fn a_decimal_is_held_in_canonical_form() {
    let d = Decimal::new(720, -1).unwrap();
    assert_eq!((d.mantissa(), d.exponent()), (72, 0));
    assert_eq!(d, Decimal::new(72, 0).unwrap());
    let d = Decimal::new(-1500, 3).unwrap();
    assert_eq!((d.mantissa(), d.exponent()), (-15, 5));
    let d = Decimal::new(0, 17).unwrap();
    assert_eq!((d.mantissa(), d.exponent()), (0, 0));
    let d = Decimal::new(123, -2).unwrap();
    assert_eq!((d.mantissa(), d.exponent()), (123, -2));
    let d = Decimal::new(i64::MIN, 0).unwrap();
    assert_eq!((d.mantissa(), d.exponent()), (i64::MIN, 0));
    let d = Decimal::new(i64::MAX, i32::MAX).unwrap();
    assert_eq!((d.mantissa(), d.exponent()), (i64::MAX, i32::MAX));
    assert_eq!(Decimal::new(10, i32::MAX), None);
    let d = Decimal::new(10, i32::MIN).unwrap();
    assert_eq!((d.mantissa(), d.exponent()), (1, i32::MIN + 1));
}

#[test]
fn a_decimal_scales_exactly() {
    let d = Decimal::new(12, -1).unwrap();
    let s = d.scaled(60, 0).unwrap();
    assert_eq!((s.mantissa(), s.exponent()), (72, 0));
    let s = Decimal::new(10, 0).unwrap().scaled(1, -3).unwrap();
    assert_eq!((s.mantissa(), s.exponent()), (1, -2));
    let s = Decimal::new(-7, 0).unwrap().scaled(86400, 0).unwrap();
    assert_eq!((s.mantissa(), s.exponent()), (-6048, 2));
    let s = Decimal::new(9765625, 0).unwrap().scaled(1024, 0).unwrap();
    assert_eq!((s.mantissa(), s.exponent()), (1, 10));
    assert_eq!(Decimal::new(i64::MAX, 0).unwrap().scaled(3, 0), None);
    assert_eq!(Decimal::new(1, i32::MAX).unwrap().scaled(1, 1), None);
    assert_eq!(Decimal::new(1, i32::MIN).unwrap().scaled(1, -3), None);
    let s = Decimal::new(0, 0).unwrap().scaled(604800, -3).unwrap();
    assert_eq!((s.mantissa(), s.exponent()), (0, 0));
}

#[test]
fn keys_are_single_or_compound() {
    assert_eq!(Key::from("a"), Key::Single(name("a")));
    assert_eq!(Key::from(name("a")), Key::Single(name("a")));
    assert_eq!(Key::from(vec![name("a")]), Key::Single(name("a")));
    assert_eq!(Key::from(vec![name("a"), name("b")]), Key::Multiple(vec![name("a"), name("b")]));
    assert_eq!(Key::from(Vec::<String>::new()), Key::Multiple(vec![]));
    assert_ne!(Key::Single(name("a")), Key::Multiple(vec![name("a")]));
    assert_ne!(Key::Single(name("a")), Key::Single(name("b")));
    assert_ne!(Key::Multiple(vec![name("a"), name("b")]), Key::Multiple(vec![name("a")]));
    assert_ne!(
        Key::Multiple(vec![name("a"), name("b")]),
        Key::Multiple(vec![name("a"), name("c")])
    );
    let k = Key::from(vec![name("a"), name("b")]);
    assert_eq!(k.clone(), k);
}

#[test]
fn an_object_maps_names_to_values() {
    let mut o = Object::new();
    assert_eq!(o.len(), 0);
    assert_eq!(o.get("a"), None);
    o.insert(name("a"), Value::from(1));
    o.insert(name("b"), Value::from(2));
    assert_eq!(o.len(), 2);
    assert_eq!(o.get("a"), Some(&Value::from(1)));
    o.insert(name("a"), Value::from(3));
    assert_eq!(o.len(), 2);
    assert_eq!(o.get("a"), Some(&Value::from(3)));
    assert_eq!(o.get("b"), Some(&Value::from(2)));
    assert_eq!(o.get("c"), None);
    let mut names = o.keys();
    names.sort();
    assert_eq!(names, vec![name("a"), name("b")]);
    assert_eq!(Object::new().keys(), Vec::<String>::new());
}

#[test]
fn objects_are_equal_in_any_order() {
    let mut a = Object::new();
    a.insert(name("x"), Value::from(1));
    a.insert(name("y"), Value::from("two"));
    let mut b = Object::new();
    b.insert(name("y"), Value::from("two"));
    b.insert(name("x"), Value::from(1));
    assert_eq!(a, b);
    assert_eq!(a.clone(), b);
    b.insert(name("z"), Value::Null);
    assert_ne!(a, b);
    a.insert(name("w"), Value::Null);
    assert_ne!(a, b);
    let mut c = Object::new();
    c.insert(name("x"), Value::from(1));
    c.insert(name("y"), Value::from("three"));
    let mut d = Object::new();
    d.insert(name("x"), Value::from(1));
    d.insert(name("y"), Value::from("two"));
    assert_ne!(c, d);
}

#[test]
fn values_of_different_kinds_differ() {
    let all = vec![
        Value::from(1),
        Value::from(Decimal::new(1, 0).unwrap()),
        Value::from("1"),
        Value::from(true),
        Value::from(vec![Value::from(1)]),
        Value::from(Object::new()),
        Value::Null,
    ];
    for (i, a) in all.iter().enumerate() {
        for (j, b) in all.iter().enumerate() {
            assert_eq!(a == b, i == j);
        }
        assert_eq!(&a.clone(), a);
    }
    assert_ne!(Value::from(vec![Value::from(1)]), Value::from(vec![Value::from(2)]));
    assert_ne!(Value::from(vec![Value::from(1)]), Value::from(vec![Value::from(1), Value::Null]));
}

#[test]
fn merge_replaces_all_but_objects() {
    let mut v = Value::from(1);
    v.merge(Value::from("x"));
    assert_eq!(v, Value::from("x"));
    let mut v = parse("a = 1").unwrap();
    v.merge(Value::from(2));
    assert_eq!(v, Value::from(2));
    let mut v = Value::from(2);
    v.merge(parse("a = 1").unwrap());
    assert_eq!(v, parse("a = 1").unwrap());
}

#[test]
fn merge_joins_objects_member_by_member() {
    let mut v = parse("a = 1; b { c = 1; d { e = 1 } }; f = [1]").unwrap();
    v.merge(parse("b { c = 2; d { g = 3 }; h = 4 }; f = [2]; i = 5").unwrap());
    assert_eq!(
        v,
        parse("a = 1; b { c = 2; d { e = 1; g = 3 }; h = 4 }; f = [2]; i = 5").unwrap()
    );
}

#[test]
fn merge_entry_merges_or_inserts() {
    let mut o = Object::new();
    o.merge_entry(name("a"), parse("x = 1").unwrap());
    o.merge_entry(name("a"), parse("y = 2").unwrap());
    o.merge_entry(name("b"), Value::from(1));
    o.merge_entry(name("b"), Value::from(2));
    assert_eq!(Value::from(o), parse("a { x = 1; y = 2 }; b = 2").unwrap());
}

#[test]
fn construction_folds_then_expands() {
    let pairs = vec![
        (Key::from("a"), Value::from(1)),
        (Key::from(vec![name("s"), name("t")]), Value::from(2)),
        (Key::from("a"), Value::from(3)),
        (Key::from(vec![name("s"), name("u")]), Value::from(4)),
        (Key::from(vec![name("s"), name("t")]), Value::from(5)),
        (Key::from("n"), Value::Null),
        (Key::from("n"), Value::from(6)),
    ];
    let built = construct_object(pairs);
    assert_eq!(Value::from(built), parse("a = [1, 3]; s { t = [2, 5]; u = 4 }; n = 6").unwrap());
}

#[test]
fn a_compound_key_of_one_name_is_a_key_of_its_own() {
    let pairs = vec![
        (Key::Single(name("a")), Value::from(1)),
        (Key::Multiple(vec![name("a")]), Value::from(2)),
    ];
    assert_eq!(Value::from(pairs), parse("a = 2").unwrap());
}

#[test]
fn a_compound_key_without_names_places_nothing() {
    let pairs = vec![
        (Key::Multiple(vec![]), Value::from(1)),
        (Key::from("a"), Value::from(2)),
    ];
    assert_eq!(Value::from(pairs), parse("a = 2").unwrap());
}

#[test]
fn named_pairs_make_an_object() {
    let v = Value::from(vec![
        (name("param"), Value::from("value")),
        (name("param"), Value::from("value2")),
        (name("param1"), Value::from("value1")),
    ]);
    assert_eq!(v, parse("param = value; param = value2; param1 = value1").unwrap());
    assert_eq!(v["param"][1], Value::from("value2"));
}

#[test]
fn extraction_needs_the_matching_kind() {
    let v = parse("n = 1; f = 1.5; s = text; b = true; a = [1]; o { k = 1 }; z = null").unwrap();
    assert_eq!(i64::from_ucl(&v["n"]), Some(1));
    assert_eq!(i64::from_ucl(&v["f"]), None);
    assert_eq!(Decimal::from_ucl(&v["f"]), Decimal::new(15, -1));
    assert_eq!(Decimal::from_ucl(&v["n"]), None);
    assert_eq!(String::from_ucl(&v["s"]), Some(name("text")));
    assert_eq!(String::from_ucl(&v["b"]), None);
    assert_eq!(bool::from_ucl(&v["b"]), Some(true));
    assert_eq!(bool::from_ucl(&v["s"]), None);
    assert_eq!(Array::from_ucl(&v["a"]), Some(vec![Value::from(1)]));
    assert_eq!(Array::from_ucl(&v["o"]), None);
    let mut o = Object::new();
    o.insert(name("k"), Value::from(1));
    assert_eq!(Object::from_ucl(&v["o"]), Some(o));
    assert_eq!(Object::from_ucl(&v["a"]), None);
    assert_eq!(i64::from_ucl(&v["z"]), None);
    assert_eq!(v["a"][0].unwrap::<i64>(), 1);
}
