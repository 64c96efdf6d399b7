use command_autocomplete::codec::{encode_message_text, parse_json_text, parse_message_text};
use command_autocomplete::protocol::{Error, Json, Message, Request, RequestId, Response};

fn obj(entries: Vec<(&str, Json)>) -> Json {
    Json::Obj(entries.into_iter().map(|(k, v)| (k.to_string(), v)).collect())
}

fn request(id: &str, method: &str, params: Json) -> Message {
    Message::Request(Request {
        id: RequestId(id.to_string()),
        method: method.to_string(),
        params,
    })
}

#[test]
fn encodes_request_compactly() {
    let m = request("1", "complete", obj(vec![]));
    assert_eq!(
        encode_message_text(&m),
        "{\"id\":\"1\",\"method\":\"complete\",\"params\":{}}"
    );
}

#[test]
fn encodes_ok_response() {
    let m = Message::Response(Response::Success {
        id: RequestId("7".to_string()),
        result: obj(vec![("values", Json::Arr(vec![]))]),
    });
    assert_eq!(encode_message_text(&m), "{\"id\":\"7\",\"result\":{\"values\":[]}}");
}

#[test]
fn encodes_err_response() {
    let m = Message::Response(Response::Failure {
        id: RequestId("2".to_string()),
        error: Error {
            code: "INTERNAL".to_string(),
            message: "boom".to_string(),
        },
    });
    assert_eq!(
        encode_message_text(&m),
        "{\"id\":\"2\",\"error\":{\"code\":\"INTERNAL\",\"message\":\"boom\"}}"
    );
}

#[test]
fn parses_request_line() {
    let line = "{\"id\":\"1\",\"method\":\"complete\",\"params\":{\"args\":[\"git\",\"chec\"]}}";
    let m = parse_message_text(line).expect("should parse");
    match m {
        Message::Request(r) => {
            assert_eq!(r.id.0, "1");
            assert_eq!(r.method, "complete");
            match r.params {
                Json::Obj(entries) => {
                    assert_eq!(entries.len(), 1);
                    assert_eq!(entries[0].0, "args");
                }
                _ => panic!("params should be an object"),
            }
        }
        _ => panic!("should be a request"),
    }
}

#[test]
fn parses_fields_in_any_order() {
    let line = "{\"params\":{},\"id\":\"9\",\"method\":\"shutdown\"}";
    let m = parse_message_text(line).expect("should parse");
    match m {
        Message::Request(r) => {
            assert_eq!(r.id.0, "9");
            assert_eq!(r.method, "shutdown");
        }
        _ => panic!("should be a request"),
    }
}

#[test]
fn round_trips_escapes_and_unicode() {
    let tricky = "a\"b\\c\nd\te\ru\u{1}f\u{7f}\u{263a}";
    let m = request("5", tricky, Json::Str(tricky.to_string()));
    let text = encode_message_text(&m);
    let back = parse_message_text(&text).expect("round trip should parse");
    match back {
        Message::Request(r) => {
            assert_eq!(r.method, tricky);
            match r.params {
                Json::Str(s) => assert_eq!(s, tricky),
                _ => panic!("params should be a string"),
            }
        }
        _ => panic!("should be a request"),
    }
}

#[test]
fn escapes_control_characters_as_json_does() {
    let m = request("1", "m", Json::Str("\n\t\r\u{8}\u{c}\u{1}".to_string()));
    let text = encode_message_text(&m);
    assert!(text.contains("\\n\\t\\r\\b\\f\\u0001"));
}

#[test]
fn round_trips_integer_extremes() {
    let payload = Json::Arr(vec![
        Json::Int(i64::MAX),
        Json::Int(i64::MIN),
        Json::Int(0),
        Json::Int(-1),
    ]);
    let m = request("1", "m", payload);
    let text = encode_message_text(&m);
    assert!(text.contains("9223372036854775807"));
    assert!(text.contains("-9223372036854775808"));
    let back = parse_message_text(&text).expect("should parse");
    match back {
        Message::Request(r) => match r.params {
            Json::Arr(items) => {
                assert!(matches!(items[0], Json::Int(i64::MAX)));
                assert!(matches!(items[1], Json::Int(i64::MIN)));
                assert!(matches!(items[2], Json::Int(0)));
                assert!(matches!(items[3], Json::Int(-1)));
            }
            _ => panic!("params should be an array"),
        },
        _ => panic!("should be a request"),
    }
}

#[test]
fn rejects_out_of_range_integers() {
    assert!(parse_json_text("9223372036854775808").is_none());
    assert!(parse_json_text("-9223372036854775809").is_none());
    assert!(parse_json_text("9223372036854775807").is_some());
    assert!(parse_json_text("-9223372036854775808").is_some());
}

#[test]
fn rejects_malformed_lines() {
    assert!(parse_message_text("").is_none());
    assert!(parse_message_text("{").is_none());
    assert!(parse_message_text("{\"id\":\"1\"}").is_none());
    assert!(parse_message_text("{\"id\":\"1\",\"method\":\"m\"}").is_none());
    assert!(parse_message_text("nonsense").is_none());
    // a request needs exactly id, method and params
    assert!(
        parse_message_text("{\"id\":\"1\",\"method\":\"m\",\"params\":{},\"extra\":1}").is_none()
    );
}

#[test]
fn parses_nested_values() {
    let v = parse_json_text("{\"a\":[1,[true,null],{\"b\":\"c\"}]}").expect("should parse");
    match v {
        Json::Obj(entries) => {
            assert_eq!(entries.len(), 1);
            match &entries[0].1 {
                Json::Arr(items) => assert_eq!(items.len(), 3),
                _ => panic!("expected array"),
            }
        }
        _ => panic!("expected object"),
    }
}

#[test]
fn rejects_trailing_input() {
    assert!(parse_json_text("{} x").is_none());
    assert!(parse_json_text("1 2").is_none());
    assert!(parse_json_text("{}{}").is_none());
}

#[test]
fn response_union_is_disambiguated_by_fields() {
    let ok = parse_message_text("{\"id\":\"1\",\"result\":null}").expect("should parse");
    assert!(matches!(ok, Message::Response(Response::Success { .. })));
    let err = parse_message_text(
        "{\"id\":\"1\",\"error\":{\"code\":\"INTERNAL\",\"message\":\"x\"}}",
    )
    .expect("should parse");
    assert!(matches!(err, Message::Response(Response::Failure { .. })));
}

#[test]
fn tolerates_whitespace_between_tokens() {
    let line = "{ \"id\": \"1\",\t\"method\": \"complete\", \"params\": { \"args\": [ \"git\", \"chec\" ] } } ";
    let m = parse_message_text(line).expect("should parse");
    match m {
        Message::Request(r) => {
            assert_eq!(r.id.0, "1");
            assert_eq!(r.method, "complete");
        }
        _ => panic!("should be a request"),
    }
    assert!(parse_json_text("[ 1 , 2 ]").is_some());
    assert!(parse_json_text("  null  ").is_some());
}

#[test]
fn whitespace_inside_strings_is_kept() {
    let v = parse_json_text("\" a b \"").expect("should parse");
    match v {
        Json::Str(s) => assert_eq!(s, " a b "),
        _ => panic!("expected a string"),
    }
}

#[test]
fn rejects_leading_zeros() {
    assert!(parse_json_text("01").is_none());
    assert!(parse_json_text("-01").is_none());
    assert!(parse_json_text("0").is_some());
    assert!(parse_json_text("-0").is_some());
    assert!(parse_json_text("10").is_some());
}

#[test]
fn reads_unicode_escapes_and_surrogate_pairs() {
    let v = parse_json_text("\"\\u0041\\u263a\\ud83d\\ude00\"").expect("should parse");
    match v {
        Json::Str(s) => assert_eq!(s, "A\u{263a}\u{1f600}"),
        _ => panic!("expected a string"),
    }
    // a lone or misordered surrogate names no character
    assert!(parse_json_text("\"\\ud83d\"").is_none());
    assert!(parse_json_text("\"\\ude00\\ud83d\"").is_none());
}
