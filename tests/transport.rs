use xi_lsp_lib::{
    decode_frame, encode_frame, notification_frame, parse_decimal, parse_header, push_decimal,
    request_frame, ClientError, CorrelationTable, DispatchError, Decoded, Dispatched, FramingError,
    JsonValue, LSPHeader, ReaderStep, RpcClient, TransportState,
};

fn key(k: &str) -> Vec<u8> {
    k.as_bytes().to_vec()
}

fn obj(fields: Vec<(&str, JsonValue)>) -> JsonValue {
    JsonValue::Object(fields.into_iter().map(|(k, v)| (key(k), v)).collect())
}

fn num(n: &str) -> JsonValue {
    JsonValue::Number(n.as_bytes().to_vec())
}

fn text(s: &str) -> JsonValue {
    JsonValue::Str(s.as_bytes().to_vec())
}

fn reply_ok(id: JsonValue, result: JsonValue) -> JsonValue {
    obj(vec![("jsonrpc", text("2.0")), ("id", id), ("result", result)])
}

#[test]
fn encode_frame_writes_exact_length_header() {
    let frame = encode_frame(b"{\"a\":1}");
    assert_eq!(frame, b"Content-Length: 7\r\n\r\n{\"a\":1}".to_vec());
}

#[test]
fn encode_frame_of_empty_body() {
    assert_eq!(encode_frame(b""), b"Content-Length: 0\r\n\r\n".to_vec());
}

#[test]
fn frame_round_trip_with_trailing_bytes() {
    let body = b"{\"jsonrpc\":\"2.0\",\"id\":12,\"result\":null}".to_vec();
    let mut buf = encode_frame(&body);
    let used = buf.len();
    buf.extend_from_slice(b"Content-Length: 3");
    assert_eq!(
        decode_frame(&buf, false),
        Ok(Decoded::Frame { body: body.clone(), consumed: used })
    );
    assert_eq!(
        decode_frame(&buf, true),
        Ok(Decoded::Frame { body, consumed: used })
    );
}

#[test]
fn frame_round_trip_long_body() {
    let body = vec![b'x'; 1234];
    let buf = encode_frame(&body);
    assert_eq!(&buf[..22], b"Content-Length: 1234\r\n");
    assert_eq!(
        decode_frame(&buf, true),
        Ok(Decoded::Frame { body, consumed: buf.len() })
    );
}

#[test]
fn decode_accepts_any_header_order_and_case() {
    let buf = b"Content-Type: application/vscode-jsonrpc; charset=utf-8\r\ncontent-LENGTH:   2\r\n\r\n{}";
    assert_eq!(
        decode_frame(buf, false),
        Ok(Decoded::Frame { body: b"{}".to_vec(), consumed: buf.len() })
    );
}

#[test]
fn decode_ignores_unknown_headers() {
    let buf = b"X-Other: 9\r\nContent-Length: 1\r\n\r\n7";
    assert_eq!(
        decode_frame(buf, false),
        Ok(Decoded::Frame { body: b"7".to_vec(), consumed: buf.len() })
    );
}

#[test]
fn decode_needs_more_for_partial_header() {
    assert_eq!(decode_frame(b"Content-Len", false), Ok(Decoded::NeedMore));
    assert_eq!(decode_frame(b"", false), Ok(Decoded::NeedMore));
}

#[test]
fn decode_clean_eof() {
    assert_eq!(decode_frame(b"", true), Ok(Decoded::Eof));
}

#[test]
fn decode_truncated_header_at_eof() {
    assert_eq!(decode_frame(b"Content-Length: 4\r\n", true), Err(FramingError::Truncated));
}

#[test]
fn decode_missing_length_is_malformed() {
    assert_eq!(
        decode_frame(b"Content-Type: text\r\n\r\n{}", false),
        Err(FramingError::MalformedHeader)
    );
}

#[test]
fn decode_non_numeric_length_is_malformed() {
    assert_eq!(
        decode_frame(b"Content-Length: 1x\r\n\r\n{}", false),
        Err(FramingError::MalformedHeader)
    );
}

#[test]
fn decode_header_without_colon_is_malformed() {
    assert_eq!(decode_frame(b"garbage\r\n\r\n", false), Err(FramingError::MalformedHeader));
}

#[test]
fn truncated_body_closes_connection() {
    let mut buf = b"Content-Length: 42\r\n\r\n".to_vec();
    buf.extend_from_slice(b"0123456789");
    assert_eq!(decode_frame(&buf, false), Ok(Decoded::NeedMore));
    let read = decode_frame(&buf, true);
    assert_eq!(read, Err(FramingError::Truncated));
    let mut client: RpcClient<u32> = RpcClient::new();
    client.start();
    assert_eq!(client.send_request("initialize", b"{}", 7), Ok(1));
    match client.on_read(read) {
        ReaderStep::Stop { disconnected, error } => {
            assert_eq!(disconnected, vec![(1u64, 7u32)]);
            assert_eq!(error, Some(FramingError::Truncated));
        }
        other => panic!("unexpected step {:?}", other),
    }
    assert_eq!(client.state_now(), TransportState::Closing);
    client.finish_close();
    assert_eq!(client.state_now(), TransportState::Closed);
    assert_eq!(client.send_request("shutdown", b"null", 8), Err(ClientError::TransportClosed));
    assert_eq!(client.take_outgoing(), request_frame(1, b"\"initialize\"", b"{}"));
    assert!(!client.is_pending(2));
}

#[test]
fn parse_header_lines() {
    assert_eq!(parse_header(b"Content-Length: 42"), Ok(Some(LSPHeader::ContentLength(42))));
    assert_eq!(parse_header(b"CONTENT-LENGTH:7"), Ok(Some(LSPHeader::ContentLength(7))));
    assert_eq!(parse_header(b"Content-Type: utf-8"), Ok(Some(LSPHeader::ContentType)));
    assert_eq!(parse_header(b"Accept: *"), Ok(None));
    assert_eq!(parse_header(b"Content-Length: "), Err(FramingError::MalformedHeader));
    assert_eq!(parse_header(b"Content-Length"), Err(FramingError::MalformedHeader));
}

#[test]
fn parse_decimal_values() {
    assert_eq!(parse_decimal(b"0"), Some(0));
    assert_eq!(parse_decimal(b"00123"), Some(123));
    assert_eq!(parse_decimal(b"18446744073709551615"), Some(u64::MAX));
    assert_eq!(parse_decimal(b"18446744073709551616"), None);
    assert_eq!(parse_decimal(b""), None);
    assert_eq!(parse_decimal(b"-1"), None);
    assert_eq!(parse_decimal(b"1.5"), None);
}

#[test]
fn push_decimal_writes_digits() {
    let mut out = b"n=".to_vec();
    push_decimal(90210, &mut out);
    assert_eq!(out, b"n=90210".to_vec());
    let mut zero = Vec::new();
    push_decimal(0, &mut zero);
    assert_eq!(zero, b"0".to_vec());
}

#[test]
fn request_frame_bytes() {
    let frame = request_frame(1, b"\"initialize\"", b"{}");
    let body = b"{\"jsonrpc\":\"2.0\",\"id\":1,\"method\":\"initialize\",\"params\":{}}";
    let mut expected = format!("Content-Length: {}\r\n\r\n", body.len()).into_bytes();
    expected.extend_from_slice(body);
    assert_eq!(frame, expected);
}

#[test]
fn notification_frame_bytes() {
    let frame = notification_frame(b"\"exit\"", b"null");
    assert_eq!(
        frame,
        b"Content-Length: 47\r\n\r\n{\"jsonrpc\":\"2.0\",\"method\":\"exit\",\"params\":null}".to_vec()
    );
}

#[test]
fn send_request_quotes_method_and_writes_frame() {
    let mut client: RpcClient<u32> = RpcClient::new();
    assert_eq!(client.state_now(), TransportState::Starting);
    client.start();
    assert_eq!(client.state_now(), TransportState::Running);
    assert_eq!(client.send_request("initialize", b"{}", 0), Ok(1));
    let out = client.take_outgoing();
    assert_eq!(out, request_frame(1, b"\"initialize\"", b"{}"));
    assert!(client.take_outgoing().is_empty());
}

#[test]
fn send_request_escapes_method() {
    let mut client: RpcClient<u32> = RpcClient::new();
    assert_eq!(client.send_request("a\"b", b"[]", 0), Ok(1));
    assert_eq!(client.take_outgoing(), request_frame(1, b"\"a\\\"b\"", b"[]"));
}

#[test]
fn send_notification_writes_frame_without_id() {
    let mut client: RpcClient<u32> = RpcClient::new();
    assert_eq!(client.send_notification("initialized", b"{}"), Ok(()));
    assert_eq!(client.take_outgoing(), notification_frame(b"\"initialized\"", b"{}"));
    assert!(!client.is_pending(1));
}

#[test]
fn request_ids_rise_from_one() {
    let mut client: RpcClient<u32> = RpcClient::new();
    let ids: Vec<u64> = (0..5).map(|n| client.send_request("m", b"null", n).unwrap()).collect();
    assert_eq!(ids, vec![1, 2, 3, 4, 5]);
    for id in ids {
        assert!(client.is_pending(id));
    }
}

#[test]
fn initialize_reply_reaches_its_handle() {
    let mut client: RpcClient<&'static str> = RpcClient::new();
    client.start();
    assert_eq!(client.send_request("initialize", b"{}", "init"), Ok(1));
    let reply = reply_ok(num("1"), obj(vec![("capabilities", obj(vec![]))]));
    assert_eq!(
        client.dispatch(reply),
        Ok(Dispatched::Reply {
            id: 1,
            handle: "init",
            outcome: Ok(obj(vec![("capabilities", obj(vec![]))])),
        })
    );
    assert!(!client.is_pending(1));
}

#[test]
fn error_for_unknown_id_is_dropped() {
    let mut client: RpcClient<u32> = RpcClient::new();
    client.start();
    let err = obj(vec![
        ("jsonrpc", text("2.0")),
        ("id", num("2")),
        ("error", obj(vec![("code", num("-32601")), ("message", text("method not found"))])),
    ]);
    assert_eq!(client.dispatch(err), Err(DispatchError::UnknownId(2)));
    assert_eq!(client.send_request("shutdown", b"null", 5), Ok(1));
    assert_eq!(
        client.dispatch(reply_ok(num("1"), JsonValue::Null)),
        Ok(Dispatched::Reply { id: 1, handle: 5, outcome: Ok(JsonValue::Null) })
    );
}

#[test]
fn error_reply_carries_error_object() {
    let mut client: RpcClient<u32> = RpcClient::new();
    assert_eq!(client.send_request("foo", b"{}", 9), Ok(1));
    let error = obj(vec![("code", num("-32601")), ("message", text("method not found"))]);
    let msg = obj(vec![
        ("jsonrpc", text("2.0")),
        ("id", num("1")),
        ("error", obj(vec![("code", num("-32601")), ("message", text("method not found"))])),
    ]);
    assert_eq!(
        client.dispatch(msg),
        Ok(Dispatched::Reply { id: 1, handle: 9, outcome: Err(error) })
    );
}

#[test]
fn reply_is_delivered_once() {
    let mut client: RpcClient<u32> = RpcClient::new();
    assert_eq!(client.send_request("a", b"{}", 1), Ok(1));
    assert_eq!(client.send_request("b", b"{}", 2), Ok(2));
    assert_eq!(
        client.dispatch(reply_ok(num("2"), num("20"))),
        Ok(Dispatched::Reply { id: 2, handle: 2, outcome: Ok(num("20")) })
    );
    assert_eq!(client.dispatch(reply_ok(num("2"), num("20"))), Err(DispatchError::UnknownId(2)));
    assert!(client.is_pending(1));
    assert_eq!(
        client.dispatch(reply_ok(num("1"), num("10"))),
        Ok(Dispatched::Reply { id: 1, handle: 1, outcome: Ok(num("10")) })
    );
}

#[test]
fn string_id_is_read_as_number() {
    let mut client: RpcClient<u32> = RpcClient::new();
    assert_eq!(client.send_request("a", b"{}", 4), Ok(1));
    assert_eq!(
        client.dispatch(reply_ok(text("1"), JsonValue::Bool(true))),
        Ok(Dispatched::Reply { id: 1, handle: 4, outcome: Ok(JsonValue::Bool(true)) })
    );
}

#[test]
fn invalid_ids_are_rejected() {
    let mut client: RpcClient<u32> = RpcClient::new();
    assert_eq!(client.send_request("a", b"{}", 4), Ok(1));
    assert_eq!(client.dispatch(reply_ok(text("abc"), JsonValue::Null)), Err(DispatchError::InvalidId));
    assert_eq!(client.dispatch(reply_ok(num("-1"), JsonValue::Null)), Err(DispatchError::InvalidId));
    assert_eq!(client.dispatch(reply_ok(JsonValue::Null, JsonValue::Null)), Err(DispatchError::InvalidId));
    assert!(client.is_pending(1));
}

#[test]
fn notifications_and_requests_from_server() {
    let mut client: RpcClient<u32> = RpcClient::new();
    let note = obj(vec![("jsonrpc", text("2.0")), ("method", text("window/logMessage")), ("params", obj(vec![]))]);
    let expected = obj(vec![("jsonrpc", text("2.0")), ("method", text("window/logMessage")), ("params", obj(vec![]))]);
    assert_eq!(client.dispatch(note), Ok(Dispatched::Notification(expected)));
    let req = obj(vec![("id", num("1")), ("method", text("workspace/configuration"))]);
    let expected = obj(vec![("id", num("1")), ("method", text("workspace/configuration"))]);
    assert_eq!(client.dispatch(req), Ok(Dispatched::UnexpectedRequest(expected)));
}

#[test]
fn malformed_envelopes_are_rejected() {
    let mut client: RpcClient<u32> = RpcClient::new();
    assert_eq!(client.dispatch(JsonValue::Array(vec![])), Err(DispatchError::MalformedEnvelope));
    assert_eq!(client.dispatch(num("3")), Err(DispatchError::MalformedEnvelope));
    assert_eq!(
        client.dispatch(obj(vec![("jsonrpc", text("2.0"))])),
        Err(DispatchError::MalformedEnvelope)
    );
    assert_eq!(
        client.dispatch(obj(vec![("id", num("1"))])),
        Err(DispatchError::MalformedEnvelope)
    );
}

#[test]
fn eof_disconnects_every_pending_request() {
    let mut client: RpcClient<u32> = RpcClient::new();
    client.start();
    assert_eq!(client.send_request("a", b"{}", 10), Ok(1));
    assert_eq!(client.send_request("b", b"{}", 20), Ok(2));
    assert_eq!(client.send_request("c", b"{}", 30), Ok(3));
    assert_eq!(
        client.dispatch(reply_ok(num("2"), JsonValue::Null)),
        Ok(Dispatched::Reply { id: 2, handle: 20, outcome: Ok(JsonValue::Null) })
    );
    match client.on_read(decode_frame(b"", true)) {
        ReaderStep::Stop { mut disconnected, error } => {
            disconnected.sort();
            assert_eq!(disconnected, vec![(1, 10), (3, 30)]);
            assert_eq!(error, None);
        }
        other => panic!("unexpected step {:?}", other),
    }
    assert_eq!(client.state_now(), TransportState::Closing);
    assert_eq!(client.send_request("d", b"{}", 40), Err(ClientError::TransportClosed));
    assert_eq!(client.send_notification("e", b"{}"), Err(ClientError::TransportClosed));
    assert_eq!(client.dispatch(reply_ok(num("1"), JsonValue::Null)), Err(DispatchError::UnknownId(1)));
    client.finish_close();
    assert_eq!(client.state_now(), TransportState::Closed);
    assert_eq!(client.send_request("f", b"{}", 50), Err(ClientError::TransportClosed));
    assert!(client.close().is_empty());
    assert_eq!(client.state_now(), TransportState::Closed);
}

#[test]
fn reader_steps_for_frames() {
    let mut client: RpcClient<u32> = RpcClient::new();
    let buf = encode_frame(b"{}");
    assert_eq!(
        client.on_read(decode_frame(&buf, false)),
        ReaderStep::Deliver { body: b"{}".to_vec(), consumed: buf.len() }
    );
    assert_eq!(client.on_read(decode_frame(b"Cont", false)), ReaderStep::ReadMore);
    assert_eq!(client.state_now(), TransportState::Starting);
}

#[test]
fn malformed_header_stops_reader() {
    let mut client: RpcClient<u32> = RpcClient::new();
    match client.on_read(decode_frame(b"bad\r\n\r\n", false)) {
        ReaderStep::Stop { disconnected, error } => {
            assert!(disconnected.is_empty());
            assert_eq!(error, Some(FramingError::MalformedHeader));
        }
        other => panic!("unexpected step {:?}", other),
    }
    assert_eq!(client.state_now(), TransportState::Closing);
}

#[test]
fn correlation_table_register_and_resolve() {
    let mut table: CorrelationTable<char> = CorrelationTable::new();
    let a = table.allocate_id();
    let b = table.allocate_id();
    assert_eq!((a, b), (1, 2));
    table.register(a, 'a');
    table.register(b, 'b');
    assert!(table.is_pending(a));
    assert_eq!(table.resolve(a), Some('a'));
    assert_eq!(table.resolve(a), None);
    assert_eq!(table.resolve(99), None);
    assert_eq!(table.drain(), vec![(2, 'b')]);
    assert!(!table.is_pending(b));
    assert_eq!(table.allocate_id(), 3);
}
