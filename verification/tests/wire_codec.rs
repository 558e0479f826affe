use qapi::Json;
use qapi::device_add;
use qapi::encode_command;
use qapi::guest_sync;
use qapi::parse_json;
use qapi::to_json_text;

fn text(s: &str) -> Json {
    Json::Text(s.to_string())
}

#[test]
fn parse_scalars() {
    assert_eq!(parse_json("null"), Some(Json::Null));
    assert_eq!(parse_json("true"), Some(Json::Bool(true)));
    assert_eq!(parse_json("false"), Some(Json::Bool(false)));
    assert_eq!(parse_json("42"), Some(Json::Int(42)));
    assert_eq!(parse_json("-7"), Some(Json::Int(-7)));
    assert_eq!(parse_json("\"hi\""), Some(text("hi")));
}

#[test]
fn parse_int_range() {
    assert_eq!(
        parse_json("9223372036854775807"),
        Some(Json::Int(i64::MAX))
    );
    assert_eq!(
        parse_json("9223372036854775808"),
        Some(Json::Num("9223372036854775808".to_string()))
    );
    assert_eq!(
        parse_json("-9223372036854775808"),
        Some(Json::Int(i64::MIN))
    );
    assert_eq!(
        parse_json("-9223372036854775809"),
        Some(Json::Num("-9223372036854775809".to_string()))
    );
}

#[test]
fn parse_string_escapes() {
    assert_eq!(parse_json("\"a\\nb\""), Some(text("a\nb")));
    assert_eq!(parse_json("\"q\\\"q\""), Some(text("q\"q")));
    assert_eq!(parse_json("\"s\\\\t\""), Some(text("s\\t")));
    assert_eq!(parse_json("\"x\\ty\""), Some(text("x\ty")));
    assert_eq!(parse_json("\"\\/\""), Some(text("/")));
}

#[test]
fn parse_nested() {
    let got = parse_json("{\"a\": [1, 2, {\"b\": \"c\"}], \"d\": null}").unwrap();
    let want = Json::Obj(vec![
        (
            "a".to_string(),
            Json::Arr(vec![
                Json::Int(1),
                Json::Int(2),
                Json::Obj(vec![("b".to_string(), text("c"))]),
            ]),
        ),
        ("d".to_string(), Json::Null),
    ]);
    assert_eq!(got, want);
}

#[test]
fn parse_tolerates_whitespace_and_newline() {
    assert_eq!(parse_json(" { \"a\" : 1 } \n"), Some(Json::Obj(vec![(
        "a".to_string(),
        Json::Int(1),
    )])));
}

#[test]
fn parse_rejects_garbage() {
    assert_eq!(parse_json(""), None);
    assert_eq!(parse_json("{"), None);
    assert_eq!(parse_json("tru"), None);
    assert_eq!(parse_json("1."), None);
    assert_eq!(parse_json("1e"), None);
    assert_eq!(parse_json("-.5"), None);
    assert_eq!(parse_json("{\"a\":1} x"), None);
    assert_eq!(parse_json("\"unterminated"), None);
    assert_eq!(parse_json("\"\\uZZZZ\""), None);
    assert_eq!(parse_json("\"\\uD800\""), None);
}

#[test]
fn parse_keeps_non_integer_numbers_verbatim() {
    assert_eq!(parse_json("1.5"), Some(Json::Num("1.5".to_string())));
    assert_eq!(parse_json("-0.25"), Some(Json::Num("-0.25".to_string())));
    assert_eq!(parse_json("3e8"), Some(Json::Num("3e8".to_string())));
    assert_eq!(parse_json("6.02E+23"), Some(Json::Num("6.02E+23".to_string())));
    assert_eq!(
        parse_json("18446744073709551615"),
        Some(Json::Num("18446744073709551615".to_string()))
    );
    assert_eq!(
        parse_json("{\"return\": {\"mbps\": 1.5}}"),
        Some(Json::Obj(vec![(
            "return".to_string(),
            Json::Obj(vec![("mbps".to_string(), Json::Num("1.5".to_string()))]),
        )]))
    );
}

#[test]
fn parse_unicode_escapes() {
    assert_eq!(parse_json("\"\\u0041\""), Some(text("A")));
    assert_eq!(parse_json("\"\\u0001\""), Some(text("\u{0001}")));
    assert_eq!(parse_json("\"\\u00e9\""), Some(text("\u{e9}")));
}

#[test]
fn serializer_escapes_control_characters() {
    let v = text("a\u{0001}b");
    let t = to_json_text(&v);
    assert_eq!(t, "\"a\\u0001b\"");
    assert_eq!(parse_json(t.as_str()), Some(v));
}

#[test]
fn serializer_is_compact_and_exact() {
    let v = Json::Obj(vec![
        ("n".to_string(), Json::Int(-12)),
        ("s".to_string(), text("a\"b\\c\nd")),
        ("l".to_string(), Json::Arr(vec![Json::Null, Json::Bool(true)])),
    ]);
    assert_eq!(
        to_json_text(&v),
        "{\"n\":-12,\"s\":\"a\\\"b\\\\c\\nd\",\"l\":[null,true]}"
    );
}

#[test]
fn encode_guest_sync_exact_wire() {
    let line = encode_command(&guest_sync { id: 5 });
    assert_eq!(line, "{\"execute\":\"guest-sync\",\"arguments\":{\"id\":5}}\n");
}

#[test]
fn round_trip_command_envelope() {
    let cmd = device_add::new(
        "e1000".to_string(),
        Some("net0".to_string()),
        None,
        vec![("mac".to_string(), text("52:54:00:12:34:56"))],
    );
    let line = encode_command(&cmd);
    let back = parse_json(line.as_str()).expect("wire line must parse back");
    let want = Json::Obj(vec![
        ("execute".to_string(), text("device_add")),
        (
            "arguments".to_string(),
            Json::Obj(vec![
                ("driver".to_string(), text("e1000")),
                ("id".to_string(), text("net0")),
                ("mac".to_string(), text("52:54:00:12:34:56")),
            ]),
        ),
    ]);
    assert_eq!(back, want);
}

#[test]
fn round_trip_values() {
    let samples = vec![
        Json::Null,
        Json::Int(0),
        Json::Int(-1000000),
        text(""),
        text("newline\nand tab\t"),
        Json::Arr(vec![]),
        Json::Obj(vec![]),
        Json::Arr(vec![Json::Arr(vec![Json::Int(1)]), Json::Bool(false)]),
        Json::Num("2.75".to_string()),
        Json::Obj(vec![("rate".to_string(), Json::Num("1e-3".to_string()))]),
    ];
    for v in samples {
        let t = to_json_text(&v);
        assert_eq!(parse_json(t.as_str()), Some(v));
    }
}

#[test]
fn device_add_later_property_overrides_earlier_binding() {
    let cmd = device_add::new(
        "e1000".to_string(),
        Some("net0".to_string()),
        None,
        vec![
            ("driver".to_string(), text("virtio-net")),
            ("mac".to_string(), text("aa:bb")),
            ("mac".to_string(), text("cc:dd")),
        ],
    );
    let want = vec![
        ("driver".to_string(), text("virtio-net")),
        ("id".to_string(), text("net0")),
        ("mac".to_string(), text("cc:dd")),
    ];
    assert_eq!(cmd.0, want);
}

#[test]
fn device_add_new_builds_dictionary_in_order() {
    let cmd = device_add::new(
        "virtio-blk".to_string(),
        None,
        Some("pci.0".to_string()),
        vec![("bootindex".to_string(), Json::Int(1))],
    );
    let want = vec![
        ("driver".to_string(), text("virtio-blk")),
        ("bus".to_string(), text("pci.0")),
        ("bootindex".to_string(), Json::Int(1)),
    ];
    assert_eq!(cmd.0, want);
}
