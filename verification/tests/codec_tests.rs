use print_ui::codec::{decode_frame, encode_frame, DecodeError, Frame};
use print_ui::json::{clone_json, Json, Member};

fn key(s: &str) -> Vec<u8> {
    s.as_bytes().to_vec()
}

fn obj(members: Vec<(&str, Json)>) -> Json {
    Json::Obj(
        members
            .into_iter()
            .map(|(k, v)| Member { key: key(k), value: v })
            .collect(),
    )
}

fn encode_to_string(f: Frame) -> String {
    let mut out = Vec::new();
    encode_frame(f, &mut out);
    String::from_utf8(out).unwrap()
}

#[test]
fn encode_request_is_exact() {
    let f = Frame::Request {
        method: key("new_view"),
        params: obj(vec![("file_path", Json::Str(key("a.txt")))]),
        id: 0,
    };
    assert_eq!(
        encode_to_string(f),
        "{\"method\":\"new_view\",\"params\":{\"file_path\":\"a.txt\"},\"id\":0}\n"
    );
}

#[test]
fn encode_notification_is_exact() {
    let f = Frame::Notification {
        method: key("set_theme"),
        params: obj(vec![("theme_name", Json::Str(key("InspiredGitHub")))]),
    };
    assert_eq!(
        encode_to_string(f),
        "{\"method\":\"set_theme\",\"params\":{\"theme_name\":\"InspiredGitHub\"}}\n"
    );
}

#[test]
fn decode_request_frame() {
    let line = b"{\"method\":\"new_view\",\"params\":{\"file_path\":\"a.txt\"},\"id\":0}";
    match decode_frame(line) {
        Ok(Frame::Request { method, params, id }) => {
            assert_eq!(method, key("new_view"));
            assert_eq!(id, 0);
            assert_eq!(
                params,
                obj(vec![("file_path", Json::Str(key("a.txt")))])
            );
        }
        other => panic!("expected a request, got {:?}", other),
    }
}

#[test]
fn decode_response_result() {
    let line = b"{\"id\":0,\"result\":\"view-id-1\"}\n";
    match decode_frame(line) {
        Ok(Frame::Response { id, result }) => {
            assert_eq!(id, 0);
            assert_eq!(result, Ok(Json::Str(key("view-id-1"))));
        }
        other => panic!("expected a response, got {:?}", other),
    }
}

#[test]
fn decode_response_error() {
    let line = b"{\"id\":3,\"error\":{\"code\":5}}";
    match decode_frame(line) {
        Ok(Frame::Response { id, result }) => {
            assert_eq!(id, 3);
            assert_eq!(result, Err(obj(vec![("code", Json::Num(key("5")))])));
        }
        other => panic!("expected a response, got {:?}", other),
    }
}

#[test]
fn decode_notification_frame() {
    let line = b"{\"method\":\"theme_changed\",\"params\":{\"name\":\"x\",\"theme\":{}}}";
    match decode_frame(line) {
        Ok(Frame::Notification { method, params }) => {
            assert_eq!(method, key("theme_changed"));
            assert_eq!(
                params,
                obj(vec![("name", Json::Str(key("x"))), ("theme", Json::Obj(vec![]))])
            );
        }
        other => panic!("expected a notification, got {:?}", other),
    }
}

#[test]
fn malformed_lines_are_recoverable_errors() {
    for line in [
        &b"not json at all"[..],
        b"{",
        b"{}",
        b"{\"id\":0}",
        b"{\"id\":true,\"result\":1}",
        b"{\"params\":{}}",
        b"{\"method\":7,\"params\":{}}",
        b"{\"id\":0,\"result\":1,\"error\":2}",
        b"[1,2,3]",
        b"42",
        b"",
    ] {
        assert_eq!(decode_frame(line), Err(DecodeError::Malformed));
    }
}

#[test]
fn reencode_after_decode_is_identity() {
    let lines: [&[u8]; 4] = [
        b"{\"method\":\"m\",\"params\":{\"a\":[1,2.5,-3e2,true,false,null]},\"id\":9}",
        b"{\"id\":7,\"result\":{\"s\":\"a\\nb\\t\\\"q\\\"\"}}",
        "{\"method\":\"n\",\"params\":{\"u\":\"\\u0001ашень\"}}".as_bytes(),
        b"{\"id\":18446744073709551615,\"error\":[]}",
    ];
    for line in lines {
        let first = decode_frame(line).expect("well-formed line");
        let mut out = Vec::new();
        encode_frame(first, &mut out);
        let second = decode_frame(&out).expect("re-encoded line");
        let first_again = decode_frame(line).unwrap();
        assert_eq!(second, first_again);
    }
}

#[test]
fn number_text_survives_round_trip() {
    let line = b"{\"method\":\"m\",\"params\":{\"w\":14.0,\"x\":-0.5e-3}}";
    let f = decode_frame(line).unwrap();
    let mut out = Vec::new();
    encode_frame(f, &mut out);
    assert_eq!(
        String::from_utf8(out).unwrap(),
        "{\"method\":\"m\",\"params\":{\"w\":14.0,\"x\":-0.5e-3}}\n"
    );
}

#[test]
fn encoded_frames_parse_under_serde_json() {
    let f = Frame::Request {
        method: key("new_view"),
        params: obj(vec![(
            "file_path",
            Json::Str("α β\t\"q\"\\.txt".as_bytes().to_vec()),
        )]),
        id: 42,
    };
    let mut out = Vec::new();
    encode_frame(f, &mut out);
    let v: serde_json::Value = serde_json::from_slice(&out).expect("valid JSON");
    assert_eq!(v["method"], serde_json::Value::String("new_view".to_string()));
    assert_eq!(v["id"], serde_json::Value::from(42u64));
    assert_eq!(
        v["params"]["file_path"],
        serde_json::Value::String("α β\t\"q\"\\.txt".to_string())
    );
}

#[test]
fn surrounding_blanks_are_immaterial() {
    let line = b"  {\"method\":\"m\",\"params\":{}}\r\n";
    assert!(matches!(
        decode_frame(line),
        Ok(Frame::Notification { .. })
    ));
}

#[test]
fn parser_handles_nesting_and_rejects_bad_escapes() {
    let line = b"{\"method\":\"m\",\"params\":{\"a\":[[],{},[{\"b\":[1]}]]}}";
    let f = decode_frame(line).unwrap();
    let mut out = Vec::new();
    encode_frame(f, &mut out);
    assert_eq!(
        String::from_utf8(out).unwrap().trim_end(),
        String::from_utf8(line.to_vec()).unwrap()
    );
    for bad in [
        &b"{\"method\":\"m\",\"params\":{\"a\":\"\\x41\"}}"[..],
        b"{\"method\":\"m\",\"params\":{\"a\":\"unterminated}}",
        b"{\"method\":\"m\",\"params\":{\"a\":[1,]}}",
        b"{\"method\":\"m\",\"params\":{\"a\":01e}}",
        b"{\"method\":\"m\",\"params\":{\"a\":--1}}",
        b"{\"method\":\"m\",\"params\":{\"a\":nul}}",
    ] {
        assert_eq!(decode_frame(bad), Err(DecodeError::Malformed));
    }
}

#[test]
fn response_ids_must_be_plain_integers() {
    for bad in [
        &b"{\"id\":1.5,\"result\":null}"[..],
        b"{\"id\":-1,\"result\":null}",
        b"{\"id\":18446744073709551616,\"result\":null}",
        b"{\"id\":\"7\",\"result\":null}",
    ] {
        assert_eq!(decode_frame(bad), Err(DecodeError::Malformed));
    }
    assert!(matches!(
        decode_frame(b"{\"id\":18446744073709551615,\"result\":null}"),
        Ok(Frame::Response { id: u64::MAX, .. })
    ));
}

#[test]
fn clone_json_is_deep() {
    let v = obj(vec![
        ("a", Json::Arr(vec![Json::Num(key("1")), Json::Str(key("x"))])),
        ("b", obj(vec![("c", Json::Bool(true))])),
    ]);
    assert_eq!(clone_json(&v), v);
}
