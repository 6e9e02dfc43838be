use jsonrpsee::json::{json_text, parse_json, JsonValue};
use jsonrpsee::request::{
    default_id, default_params, Call, Id, MethodCall, Notification, Params, Request, Version,
};

#[test]
fn method_call_serialize() {
    let m = MethodCall {
        jsonrpc: Version::V2,
        method: "update".to_owned(),
        params: Params::Array(vec![JsonValue::UInt(1), JsonValue::UInt(2)]),
        id: Id::Num(1),
    };

    let serialized = m.to_json();
    assert_eq!(serialized, r#"{"jsonrpc":"2.0","method":"update","params":[1,2],"id":1}"#);
}

#[test]
fn notification_serialize() {
    let n = Notification {
        jsonrpc: Version::V2,
        method: "update".to_owned(),
        params: Params::Array(vec![JsonValue::UInt(1), JsonValue::UInt(2)]),
    };

    let serialized = n.to_json();
    assert_eq!(serialized, r#"{"jsonrpc":"2.0","method":"update","params":[1,2]}"#);
}

#[test]
fn call_serialize() {
    let n = Call::Notification(Notification {
        jsonrpc: Version::V2,
        method: "update".to_owned(),
        params: Params::Array(vec![JsonValue::UInt(1)]),
    });

    let serialized = n.to_json();
    assert_eq!(serialized, r#"{"jsonrpc":"2.0","method":"update","params":[1]}"#);
}

#[test]
fn request_serialize_batch() {
    let batch = Request::Batch(vec![
        Call::MethodCall(MethodCall {
            jsonrpc: Version::V2,
            method: "update".to_owned(),
            params: Params::Array(vec![JsonValue::UInt(1), JsonValue::UInt(2)]),
            id: Id::Num(1),
        }),
        Call::Notification(Notification {
            jsonrpc: Version::V2,
            method: "update".to_owned(),
            params: Params::Array(vec![JsonValue::UInt(1)]),
        }),
    ]);

    let serialized = batch.to_json();
    assert_eq!(
        serialized,
        r#"[{"jsonrpc":"2.0","method":"update","params":[1,2],"id":1},{"jsonrpc":"2.0","method":"update","params":[1]}]"#
    );
}

#[test]
fn notification_deserialize() {
    let s = r#"{"jsonrpc": "2.0", "method": "update", "params": [1,2]}"#;
    let deserialized: Notification = Notification::from_json(s).unwrap();

    assert_eq!(
        deserialized,
        Notification {
            jsonrpc: Version::V2,
            method: "update".to_owned(),
            params: Params::Array(vec![JsonValue::UInt(1), JsonValue::UInt(2)])
        }
    );

    let s = r#"{"jsonrpc": "2.0", "method": "foobar"}"#;
    let deserialized: Notification = Notification::from_json(s).unwrap();

    assert_eq!(
        deserialized,
        Notification { jsonrpc: Version::V2, method: "foobar".to_owned(), params: Params::Absent }
    );

    let s = r#"{"jsonrpc": "2.0", "method": "update", "params": [1,2], "id": 1}"#;
    let deserialized: Option<Notification> = Notification::from_json(s);
    assert!(deserialized.is_none());
}

#[test]
fn call_deserialize() {
    let s = r#"{"jsonrpc": "2.0", "method": "update", "params": [1]}"#;
    let deserialized: Call = Call::from_json(s).unwrap();
    assert_eq!(
        deserialized,
        Call::Notification(Notification {
            jsonrpc: Version::V2,
            method: "update".to_owned(),
            params: Params::Array(vec![JsonValue::UInt(1)])
        })
    );

    let s = r#"{"jsonrpc": "2.0", "method": "update", "params": [1], "id": 1}"#;
    let deserialized: Call = Call::from_json(s).unwrap();
    assert_eq!(
        deserialized,
        Call::MethodCall(MethodCall {
            jsonrpc: Version::V2,
            method: "update".to_owned(),
            params: Params::Array(vec![JsonValue::UInt(1)]),
            id: Id::Num(1)
        })
    );

    let s = r#"{"jsonrpc": "2.0", "method": "update", "params": [], "id": 1}"#;
    let deserialized: Call = Call::from_json(s).unwrap();
    assert_eq!(
        deserialized,
        Call::MethodCall(MethodCall {
            jsonrpc: Version::V2,
            method: "update".to_owned(),
            params: Params::Array(vec![]),
            id: Id::Num(1)
        })
    );

    let s = r#"{"jsonrpc": "2.0", "method": "update", "params": null, "id": 1}"#;
    let deserialized: Call = Call::from_json(s).unwrap();
    assert_eq!(
        deserialized,
        Call::MethodCall(MethodCall {
            jsonrpc: Version::V2,
            method: "update".to_owned(),
            params: Params::Absent,
            id: Id::Num(1)
        })
    );

    let s = r#"{"jsonrpc": "2.0", "method": "update", "id": 1}"#;
    let deserialized: Call = Call::from_json(s).unwrap();
    assert_eq!(
        deserialized,
        Call::MethodCall(MethodCall {
            jsonrpc: Version::V2,
            method: "update".to_owned(),
            params: Params::Absent,
            id: Id::Num(1)
        })
    );
}

#[test]
fn request_deserialize_batch() {
    let s = r#"[{}, {"jsonrpc": "2.0", "method": "update", "params": [1,2], "id": 1},{"jsonrpc": "2.0", "method": "update", "params": [1]}]"#;
    let deserialized: Request = Request::from_json(s).unwrap();
    assert_eq!(
        deserialized,
        Request::Batch(vec![
            Call::Invalid { id: Id::Null },
            Call::MethodCall(MethodCall {
                jsonrpc: Version::V2,
                method: "update".to_owned(),
                params: Params::Array(vec![JsonValue::UInt(1), JsonValue::UInt(2)]),
                id: Id::Num(1)
            }),
            Call::Notification(Notification {
                jsonrpc: Version::V2,
                method: "update".to_owned(),
                params: Params::Array(vec![JsonValue::UInt(1)])
            })
        ])
    )
}

#[test]
fn request_invalid_returns_id() {
    let s = r#"{"id":120,"method":"my_method","params":["foo", "bar"],"extra_field":[]}"#;
    let deserialized: Request = Request::from_json(s).unwrap();

    match deserialized {
        Request::Single(Call::Invalid { id: Id::Num(120) }) => {}
        _ => panic!("Request wrongly deserialized: {:?}", deserialized),
    }
}

#[test]
fn duplicate_field_makes_the_call_invalid() {
    // a repeated field disqualifies both call shapes; the id is still carried
    let s = r#"{"jsonrpc":"2.0","method":"a","method":"b","params":[],"id":1}"#;
    let deserialized: Request = Request::from_json(s).unwrap();
    match deserialized {
        Request::Single(Call::Invalid { id: Id::Num(1) }) => {}
        _ => panic!("Request wrongly deserialized: {:?}", deserialized),
    }

    let s = r#"{"jsonrpc":"2.0","jsonrpc":"2.0","method":"a","params":[]}"#;
    let deserialized: Request = Request::from_json(s).unwrap();
    match deserialized {
        Request::Single(Call::Invalid { id: Id::Null }) => {}
        _ => panic!("Request wrongly deserialized: {:?}", deserialized),
    }
}

#[test]
fn defaults_are_absent_params_and_null_id() {
    assert_eq!(default_params(), Params::Absent);
    assert_eq!(default_id(), Id::Null);
}

#[test]
fn json_text_escapes_strings() {
    let v = JsonValue::Str("a\"b\\c\nd\u{1}".to_owned());
    assert_eq!(json_text(&v), r#""a\"b\\c\nd\u0001""#);
}

#[test]
fn json_parse_handles_escapes_and_numbers() {
    let v = parse_json(r#"{"a": "xA\n", "b": -5, "c": 1.5, "d": true}"#).unwrap();
    match &v {
        JsonValue::Obj(fs) => {
            assert_eq!(fs.len(), 4);
            assert_eq!(fs[0].1, JsonValue::Str("xA\n".to_owned()));
            assert_eq!(fs[1].1, JsonValue::NegInt(5));
            assert_eq!(fs[2].1, JsonValue::NumLit("1.5".to_owned()));
            assert_eq!(fs[3].1, JsonValue::Bool(true));
        }
        _ => panic!("object expected: {:?}", v),
    }
}

#[test]
fn json_parse_rejects_malformed_text() {
    assert!(parse_json("{").is_none());
    assert!(parse_json(r#"{"a": 01}"#).is_none());
    assert!(parse_json("[1,]").is_none());
    assert!(parse_json("").is_none());
    assert!(parse_json("nulll").is_none());
}

#[test]
fn json_round_trip_keeps_values() {
    let texts = [
        r#"{"a":[1,2,{"b":null}],"c":"x","d":-7,"e":1e3}"#,
        r#"[true,false,null,"",0]"#,
        r#""hello""#,
        "18446744073709551615",
        "18446744073709551616",
    ];
    for t in texts.iter() {
        let v = parse_json(t).unwrap();
        assert_eq!(&json_text(&v), t);
    }
}
