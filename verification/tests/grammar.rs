use ucl::{
    array, json_array, json_value, key, key_value, multi_line_string, object, parse, value, Array,
    Decimal, Key, Object, Value,
};

/// The value of a float literal that denotes `x`.
fn float(x: f64) -> Value {
    let written = format!("{:e}", x);
    let (digits, power) = written.split_once('e').unwrap();
    let power: i32 = power.parse().unwrap();
    let (whole, fraction) = match digits.split_once('.') {
        Some((whole, fraction)) => (whole, fraction),
        None => (digits, ""),
    };
    let mantissa: i64 = format!("{}{}", whole, fraction).parse().unwrap();
    Value::from(Decimal::new(mantissa, power - fraction.len() as i32).unwrap())
}

#[test]
fn test_json() {
    assert_eq!(json_value("100").unwrap(), Value::from(100));
    assert_eq!(json_value("1.23").unwrap(), float(1.23));
    assert_eq!(json_value("true").unwrap(), Value::from(true));
    assert_eq!(json_value("false").unwrap(), Value::from(false));
    assert_eq!(json_value("null").unwrap(), Value::Null);
    assert_eq!(json_value(r#""string""#).unwrap(), Value::from("string"));

    let v = json_array(r#"[1, "two", true]"#).unwrap();
    assert_eq!(v, Value::from(vec![
        Value::from(1),
        Value::from("two"),
        Value::from(true)
    ]));

    let v = json_value(r#"{
          "param": "value",
          "param1": "value1",
          "param": "value2"
        }"#).unwrap();
    assert_eq!(v, Value::from(vec![
        (Key::from("param"), Value::from(vec![
            Value::from("value"),
            Value::from("value2")
        ])),
        (Key::from("param1"), Value::from("value1"))
    ]));
}

#[test]
fn test_ucl_array() {
    assert_eq!(array("[]").unwrap(), Value::Array(vec![]));
    assert_eq!(array(r#"[1, "two", true]"#).unwrap(), Value::from(vec![
        Value::from(1),
        Value::from("two"),
        Value::from(true)
    ]));
    assert_eq!(array(r#"[
          100,
          [],
          [true,false]
        ]"#).unwrap(), Value::from(vec![
        Value::from(100),
        Value::Array(vec![]),
        Value::from(vec![Value::from(true), Value::from(false)])
    ]));
    assert_eq!(array("[.foo, .bar]").unwrap(), Value::from(vec![
        Value::from(".foo"),
        Value::from(".bar")
    ]));
    assert_eq!(array("[{},{}]").unwrap(), Value::from(vec![
        Value::Object(Object::new()),
        Value::Object(Object::new())]
    ));
    assert_eq!(key_value(r#"object_array = [{
          index = 1;
          value = foo;
        }, {
          index = 2;
          value = bar;
        }];"#).unwrap(), (Key::from("object_array"), Value::from(vec![
        Value::from(vec![
            (Key::from("index"), Value::from(1)),
            (Key::from("value"), Value::from("foo"))
        ]),
        Value::from(vec![
            (Key::from("index"), Value::from(2)),
            (Key::from("value"), Value::from("bar"))
        ])
    ])));
}

#[test]
fn test_ucl_object() {
    assert_eq!(parse(r#"obj a {
          name = A;
        }

        obj b {
          name = B;
        }"#).unwrap(), Value::from(vec![
        (Key::from("obj"), Value::from(vec![
            (Key::from("a"), Value::from(vec![
                (Key::from("name"), Value::from("A"))
            ])),
            (Key::from("b"), Value::from(vec![
                (Key::from("name"), Value::from("B"))
            ]))
        ]))
    ]));
}

#[test]
fn test_ucl_value() {
    assert_eq!(value("10").unwrap(), Value::from(10));
    assert_eq!(value("-10").unwrap(), Value::from(-10));
    assert_eq!(value("0x1f").unwrap(), Value::from(31));
    assert_eq!(value("0xFE").unwrap(), Value::from(254));

    assert_eq!(value("1.23").unwrap(), float(1.23_f64));
    assert_eq!(value("-1.23").unwrap(), float(-1.23_f64));

    assert_eq!(value("1k").unwrap(), Value::from(1000));
    assert_eq!(value("1kb").unwrap(), Value::from(1024));
    assert_eq!(value("10ms").unwrap(), float(0.01));
    assert_eq!(value("1.2min").unwrap(), float(72_f64));

    assert_eq!(value("true").unwrap(), Value::from(true));
    assert_eq!(value("false").unwrap(), Value::from(false));

    assert_eq!(value("null").unwrap(), Value::Null);

    assert_eq!(value("foo").unwrap(), Value::from("foo"));
    assert_eq!(value(r#""foo""#).unwrap(), Value::from("foo"));
}

#[test]
fn it_works() {
    assert_eq!(key("foo").unwrap(), "foo".to_owned());
    assert_eq!(key(r#""foo""#).unwrap(), "foo".to_owned());

    assert_eq!(key_value("param = value;").unwrap(), (Key::from("param"), Value::from("value")));
    assert_eq!(key_value(r#"section {
          param1=value1;
          param2=value2;
        }"#).unwrap(), (Key::from("section"), Value::from(vec![
        (Key::from("param1"), Value::from("value1")),
        (Key::from("param2"), Value::from("value2"))
    ])));

    key_value("foo bar = { foo = bar; }").unwrap();

    assert_eq!(object("{}").unwrap(), Value::from(Object::new()));
    assert_eq!(object(r#"{
          param1=value1;
          param2=value2;
        }"#).unwrap(), Value::from(vec![
        (Key::from("param1"), Value::from("value1")),
        (Key::from("param2"), Value::from("value2"))
    ]));

}

#[test]
fn test_ucl_multiline_string() {
    assert_eq!(multi_line_string(r#"<<EOD
EOD
"#).unwrap(), "");

    assert_eq!(multi_line_string(r#"<<EOD
foo
EOF
EOD
"#).unwrap(), "foo\nEOF");
    assert_eq!(multi_line_string(r#"<<EOS

some
text

EOS
"#).unwrap(), "\nsome\ntext\n");
    assert_eq!(parse(r#"s1 = <<EOS
some
text
EOS
;
                            s2 = <<EOD
EOD
;
"#).unwrap(), Value::from(vec![
    (Key::from("s1"), Value::from("some\ntext")),
    (Key::from("s2"), Value::from(""))
]));
}

#[test]
fn test_complex() {
    let v = parse(r#"param = value;
          section {
            param = value;
            param1 = value1;
            flag = true;
            number = 10k;
            time = 0.2s;
            string = "something";
            subsection {
              host = {
                host = "hostname";
                port = 900;
              }
              host = {
                host = "hostname";
                port = 901;
              }
            }
          }
        "#).unwrap();

    assert_eq!(v, Value::from(vec![
        (Key::from("param"), Value::from("value")),
        (Key::from("section"), Value::from(vec![
            (Key::from("param"), Value::from("value")),
            (Key::from("param1"), Value::from("value1")),
            (Key::from("flag"), Value::from(true)),
            (Key::from("number"), Value::from(10_000)),
            (Key::from("time"), float(0.2)),
            (Key::from("string"), Value::from("something")),
            (Key::from("subsection"), Value::from(vec![
                (Key::from("host"), Value::from(vec![
                    Value::from(vec![
                        (Key::from("host"), Value::from("hostname")),
                        (Key::from("port"), Value::from(900))
                    ]),
                    Value::from(vec![
                        (Key::from("host"), Value::from("hostname")),
                        (Key::from("port"), Value::from(901))
                    ]),
                ]))
            ]))
        ]))
    ]));

    assert_eq!(v["param"].unwrap::<String>(), "value");
    assert_eq!(v["section"]["flag"].unwrap::<bool>(), true);
    assert_eq!(v["section"]["subsection"]["host"][1]["port"].unwrap::<i64>(), 901);
    let hosts: Array = v["section"]["subsection"]["host"].unwrap();
    for i in 0..hosts.len() {
        let port: i64 = hosts[i]["port"].unwrap();
        assert_eq!(port, 900 + i as i64);
    }

    assert_eq!(v.get("non_exist"), None);
    assert_eq!(v.get_or("non_exist", 0), 0);
}
