use lsp_server::Connection;
use lsp_server::ErrorCode;
use lsp_server::JsonValue;
use lsp_server::Message;
use lsp_server::Notification;
use lsp_server::Request;
use lsp_server::RequestId;
use lsp_server::Response;
use lsp_server::framing::DecodeStep;
use lsp_server::framing::decode_at_end;
use lsp_server::framing::decode_step;
use lsp_server::framing::encode_message;
use lsp_server::is_representable_msg;
use lsp_server::parse::parse_json;
use lsp_server::json::write_json;

fn req(id: i64, method: &str, params: JsonValue) -> Message {
    Message::Request(Request::new(RequestId::Int(id), method.to_string(), params))
}

fn notif(method: &str, params: JsonValue) -> Message {
    Message::Notification(Notification::new(method.to_string(), params))
}

fn frame_of(body: &str) -> Vec<u8> {
    let mut out = format!("Content-Length: {}\r\n\r\n", body.len()).into_bytes();
    out.extend_from_slice(body.as_bytes());
    out
}

fn decode_one(bytes: &Vec<u8>) -> Message {
    match decode_step(bytes, 0) {
        DecodeStep::Msg(m, next) => {
            assert_eq!(next, bytes.len());
            m
        }
        _ => panic!("expected one whole message"),
    }
}

#[test]
fn round_trip_request() {
    let m = req(
        1,
        "textDocument/definition",
        JsonValue::Object(vec![(
            "position".to_string(),
            JsonValue::Array(vec![JsonValue::Int(3), JsonValue::Int(-14)]),
        )]),
    );
    let m2 = req(
        1,
        "textDocument/definition",
        JsonValue::Object(vec![(
            "position".to_string(),
            JsonValue::Array(vec![JsonValue::Int(3), JsonValue::Int(-14)]),
        )]),
    );
    let bytes = encode_message(m);
    assert_eq!(decode_one(&bytes), m2);
}

#[test]
fn round_trip_all_shapes() {
    let build = |k: usize| -> Message {
        match k {
            0 => notif("exit", JsonValue::Null),
            1 => notif("log", JsonValue::Str("a \"quoted\"\\\n\r\ttext".to_string())),
            2 => Message::Request(Request::new(
                RequestId::Str("abc".to_string()),
                "shutdown".to_string(),
                JsonValue::Bool(true),
            )),
            3 => Message::Response(Response::new_ok(RequestId::Int(7), JsonValue::Array(vec![]))),
            _ => Message::Response(Response::new_err(
                RequestId::Int(9),
                ErrorCode::MethodNotFound.code(),
                "no such method".to_string(),
            )),
        }
    };
    for k in 0..5 {
        let bytes = encode_message(build(k));
        assert_eq!(decode_one(&bytes), build(k));
    }
}

#[test]
fn exact_frame_bytes() {
    let bytes = encode_message(notif("initialized", JsonValue::Null));
    let body = r#"{"jsonrpc":"2.0","method":"initialized","params":null}"#;
    assert_eq!(bytes, frame_of(body));
}

#[test]
fn truncated_header_is_an_error() {
    let bytes = encode_message(notif("exit", JsonValue::Null));
    let cut: Vec<u8> = bytes[..10].to_vec();
    assert!(decode_at_end(&cut, 0).is_err());
}

#[test]
fn truncated_body_is_an_error() {
    let bytes = encode_message(notif("exit", JsonValue::Null));
    let cut: Vec<u8> = bytes[..bytes.len() - 3].to_vec();
    assert!(decode_at_end(&cut, 0).is_err());
}

#[test]
fn clean_end_of_stream_is_no_message() {
    let empty: Vec<u8> = Vec::new();
    assert_eq!(decode_at_end(&empty, 0).unwrap().is_none(), true);
}

#[test]
fn classify_request_response_notification() {
    let r = decode_one(&frame_of(r#"{"id":1,"method":"m","params":[true]}"#));
    assert!(matches!(r, Message::Request(_)));
    let r = decode_one(&frame_of(r#"{"id":1,"result":null}"#));
    assert!(matches!(r, Message::Response(_)));
    let r = decode_one(&frame_of(
        r#"{"id":"k","error":{"code":-32601,"message":"nope"}}"#,
    ));
    match r {
        Message::Response(resp) => {
            assert_eq!(resp.error.unwrap().code, -32601);
            assert!(resp.result.is_none());
        }
        _ => panic!("expected a response"),
    }
    let r = decode_one(&frame_of(r#"{"method":"m"}"#));
    match r {
        Message::Notification(n) => assert_eq!(n.params, JsonValue::Null),
        _ => panic!("expected a notification"),
    }
}

#[test]
fn ambiguous_shapes_are_parse_errors() {
    for body in [
        r#"{"id":1}"#,
        r#"{}"#,
        r#"{"id":1,"result":null,"error":{"code":1,"message":"x"}}"#,
        r#"{"id":true,"method":"m"}"#,
        r#"[1,2]"#,
    ] {
        match decode_step(&frame_of(body), 0) {
            DecodeStep::Fail(_) => {}
            _ => panic!("body {body} must be a parse error"),
        }
    }
}

#[test]
fn parser_accepts_whitespace_and_escapes() {
    let text = " { \"a\" : [ 1 , \"x\\ty\" , null ] } ".as_bytes().to_vec();
    let v = parse_json(&text, 0, text.len()).unwrap();
    assert_eq!(
        v,
        JsonValue::Object(vec![(
            "a".to_string(),
            JsonValue::Array(vec![
                JsonValue::Int(1),
                JsonValue::Str("x\ty".to_string()),
                JsonValue::Null
            ]),
        )])
    );
}

#[test]
fn any_text_is_representable_but_not_two_sided_responses() {
    assert!(is_representable_msg(&notif("log", JsonValue::Str("caf\u{e9}".to_string()))));
    let both = Message::Response(Response {
        id: RequestId::Int(1),
        result: Some(JsonValue::Null),
        error: Some(lsp_server::ResponseError {
            code: -1,
            message: "x".to_string(),
            data: None,
        }),
    });
    assert!(!is_representable_msg(&both));
    let neither = Message::Response(Response { id: RequestId::Int(1), result: None, error: None });
    assert!(!is_representable_msg(&neither));
}

#[test]
fn round_trip_wide_text() {
    let texts = ["héllo → würld", "日本語テキスト", "emoji \u{1f600} mix", "ctrl \u{1} \u{1f} end"];
    for text in texts {
        let bytes = encode_message(notif("log", JsonValue::Str(text.to_string())));
        match decode_one(&bytes) {
            Message::Notification(n) => assert_eq!(n.params, JsonValue::Str(text.to_string())),
            _ => panic!("expected the notification back"),
        }
    }
}

#[test]
fn wide_text_frames_count_utf8_bytes() {
    let bytes = encode_message(notif("m", JsonValue::Str("é".to_string())));
    // the body carries the two-byte UTF-8 form, and the header counts it
    let body = "{\"jsonrpc\":\"2.0\",\"method\":\"m\",\"params\":\"é\"}";
    assert_eq!(bytes, frame_of(body));
}

#[test]
fn encoder_emits_min_int() {
    let mut out = Vec::new();
    write_json(&JsonValue::Int(i64::MIN), &mut out);
    assert_eq!(out, b"-9223372036854775808".to_vec());
    let parsed = parse_json(&out, 0, out.len()).unwrap();
    assert_eq!(parsed, JsonValue::Int(i64::MIN));
}

#[test]
fn extract_matches_and_returns_misses_unchanged() {
    let r = Request::new(RequestId::Int(4), "go".to_string(), JsonValue::Bool(true));
    let r = match r.extract("stop") {
        Err(back) => back,
        Ok(_) => panic!("method must not match"),
    };
    match r.extract("go") {
        Ok((id, params)) => {
            assert_eq!(id, RequestId::Int(4));
            assert_eq!(params, JsonValue::Bool(true));
        }
        Err(_) => panic!("method must match"),
    }
}

#[test]
fn handshake_rejects_anything_but_initialize() {
    let (server, client) = Connection::memory();
    client.sender.send(notif("initialized", JsonValue::Null)).unwrap();
    assert!(server.initialize(JsonValue::Null).is_err());
    // no capabilities response was sent back
    assert!(client.receiver.try_recv().is_err());
}

#[test]
fn happy_path_lifecycle() {
    let (server, client) = Connection::memory();
    client.sender.send(req(1, "initialize", JsonValue::Null)).unwrap();
    client.sender.send(notif("initialized", JsonValue::Null)).unwrap();
    let params = server.initialize(JsonValue::Str("caps".to_string())).unwrap();
    assert_eq!(params, JsonValue::Null);
    match client.receiver.recv().unwrap() {
        Message::Response(resp) => {
            assert_eq!(resp.id, RequestId::Int(1));
            assert_eq!(
                resp.result.unwrap(),
                JsonValue::Object(vec![(
                    "capabilities".to_string(),
                    JsonValue::Str("caps".to_string())
                )])
            );
            assert!(resp.error.is_none());
        }
        _ => panic!("expected the capabilities response"),
    }
    // a custom request is not handled by the shutdown helper
    let custom = Request::new(RequestId::Int(2), "custom".to_string(), JsonValue::Null);
    assert_eq!(server.handle_shutdown(&custom).unwrap(), false);
    // shutdown followed by exit completes the lifecycle
    client.sender.send(notif("exit", JsonValue::Null)).unwrap();
    let shutdown = Request::new(RequestId::Int(3), "shutdown".to_string(), JsonValue::Null);
    assert_eq!(server.handle_shutdown(&shutdown).unwrap(), true);
    match client.receiver.recv().unwrap() {
        Message::Response(resp) => {
            assert_eq!(resp.id, RequestId::Int(3));
            assert_eq!(resp.result.unwrap(), JsonValue::Null);
        }
        _ => panic!("expected the shutdown response"),
    }
}

#[test]
fn shutdown_without_exit_times_out() {
    let (server, client) = Connection::memory();
    let shutdown = Request::new(RequestId::Int(5), "shutdown".to_string(), JsonValue::Null);
    let r = server.handle_shutdown_with_timeout(&shutdown, 1);
    assert!(r.is_err());
    // the shutdown response itself was still sent
    assert!(matches!(client.receiver.recv().unwrap(), Message::Response(_)));
}

#[test]
fn rendezvous_send_waits_for_a_receiver() {
    let (s, r) = crossbeam_channel::bounded::<Message>(0);
    // with no receiver ready, a rendezvous send cannot complete
    assert!(s.try_send(notif("exit", JsonValue::Null)).is_err());
    drop(r);
}

#[test]
fn loopback_pair_preserves_order() {
    let (a, b) = Connection::memory();
    for k in 0..5 {
        a.sender.send(req(k, "ping", JsonValue::Int(k))).unwrap();
        b.sender.send(req(100 + k, "pong", JsonValue::Int(k))).unwrap();
    }
    for k in 0..5 {
        match b.receiver.recv().unwrap() {
            Message::Request(r) => assert_eq!(r.id, RequestId::Int(k)),
            _ => panic!("expected a request"),
        }
        match a.receiver.recv().unwrap() {
            Message::Request(r) => assert_eq!(r.id, RequestId::Int(100 + k)),
            _ => panic!("expected a request"),
        }
    }
}

#[test]
fn two_frames_decode_in_sequence() {
    let mut bytes = encode_message(req(1, "a", JsonValue::Null));
    let second = encode_message(notif("exit", JsonValue::Null));
    let first_len = bytes.len();
    bytes.extend_from_slice(&second);
    match decode_step(&bytes, 0) {
        DecodeStep::Msg(m, next) => {
            assert!(matches!(m, Message::Request(_)));
            assert_eq!(next, first_len);
            match decode_step(&bytes, next) {
                DecodeStep::Msg(m2, end) => {
                    assert!(matches!(m2, Message::Notification(_)));
                    assert_eq!(end, bytes.len());
                }
                _ => panic!("expected the second message"),
            }
        }
        _ => panic!("expected the first message"),
    }
}

#[test]
fn other_headers_are_ignored() {
    let body = r#"{"method":"m"}"#;
    let text = format!(
        "Content-Type: application/json\r\nContent-Length: {}\r\n\r\n{}",
        body.len(),
        body
    );
    let bytes = text.into_bytes();
    match decode_step(&bytes, 0) {
        DecodeStep::Msg(m, _) => assert!(matches!(m, Message::Notification(_))),
        _ => panic!("expected a message despite the extra header"),
    }
}

#[test]
fn error_codes_carry_their_wire_values() {
    assert_eq!(ErrorCode::ParseError.code(), -32700);
    assert_eq!(ErrorCode::InvalidRequest.code(), -32600);
    assert_eq!(ErrorCode::MethodNotFound.code(), -32601);
    assert_eq!(ErrorCode::InvalidParams.code(), -32602);
    assert_eq!(ErrorCode::InternalError.code(), -32603);
    assert_eq!(ErrorCode::ServerNotInitialized.code(), -32002);
    assert_eq!(ErrorCode::RequestCancelled.code(), -32800);
}

#[test]
fn decoder_accepts_multibyte_text() {
    let body = "{\"method\":\"m\",\"params\":\"héllo → würld\"}";
    match decode_one(&frame_of(body)) {
        Message::Notification(n) => {
            assert_eq!(n.params, JsonValue::Str("héllo → würld".to_string()));
        }
        _ => panic!("expected a notification"),
    }
}

#[test]
fn decoder_accepts_hex_escapes() {
    let body = r#"{"method":"m","params":"éA\u001b"}"#;
    match decode_one(&frame_of(body)) {
        Message::Notification(n) => {
            assert_eq!(n.params, JsonValue::Str("\u{e9}A\u{1b}".to_string()));
        }
        _ => panic!("expected a notification"),
    }
}

#[test]
fn lone_surrogate_escape_is_a_parse_error() {
    let body = r#"{"method":"m","params":"\ud83d"}"#;
    assert!(matches!(decode_step(&frame_of(body), 0), DecodeStep::Fail(_)));
}

#[test]
fn missing_content_length_is_a_framing_error() {
    // a header block that ends at once, with no Content-Length at all
    let bytes: Vec<u8> = b"\r\n{}".to_vec();
    assert!(matches!(decode_step(&bytes, 0), DecodeStep::Fail(_)));
    let text = "Content-Type: application/json\r\n\r\n{}".to_string();
    assert!(matches!(decode_step(&text.into_bytes(), 0), DecodeStep::Fail(_)));
}

#[test]
fn malformed_content_length_is_a_framing_error() {
    for header in ["Content-Length: 12x\r\n\r\n", "Content-Length: many\r\n\r\n"] {
        let bytes = header.to_string().into_bytes();
        assert!(matches!(decode_step(&bytes, 0), DecodeStep::Fail(_)));
    }
}

#[test]
fn handshake_errors_carry_their_descriptions() {
    let (server, client) = Connection::memory();
    client.sender.send(notif("initialized", JsonValue::Null)).unwrap();
    let err = server.initialize(JsonValue::Null).unwrap_err();
    assert_eq!(
        err.description(),
        "expected initialize request, got a notification"
    );
    let (server, client) = Connection::memory();
    let shutdown = Request::new(RequestId::Int(5), "shutdown".to_string(), JsonValue::Null);
    let err = server.handle_shutdown_with_timeout(&shutdown, 1).unwrap_err();
    assert_eq!(err.description(), "timed out waiting for the exit notification");
    drop(client);
}

#[test]
fn oversized_content_length_is_a_framing_error() {
    let bytes = "Content-Length: 99999999999999999999\r\n\r\n".to_string().into_bytes();
    assert!(matches!(decode_step(&bytes, 0), DecodeStep::Fail(_)));
}
