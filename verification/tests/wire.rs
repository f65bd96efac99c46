use mcp_broker::framing::{FrameBuffer, TransportError};
use mcp_broker::message::{Envelope, ErrorBody, Message};
use mcp_broker::wire::{encode_envelope, encode_message};

fn text(bytes: Vec<u8>) -> String {
    String::from_utf8(bytes).unwrap()
}

#[test]
fn request_on_the_wire() {
    let msg = Message::Request {
        id: 12,
        method: "tools/call".to_string(),
        params: b"{\"name\":\"list_vms\"}".to_vec(),
    };
    assert_eq!(
        text(encode_envelope(&msg.into_envelope())),
        "{\"id\":12,\"method\":\"tools/call\",\"params\":{\"name\":\"list_vms\"}}"
    );
}

#[test]
fn response_on_the_wire() {
    let msg = Message::Response { id: 0, result: b"[1,2]".to_vec() };
    assert_eq!(text(encode_envelope(&msg.into_envelope())), "{\"id\":0,\"result\":[1,2]}");
    let big = Message::Response { id: u64::MAX, result: b"null".to_vec() };
    assert_eq!(
        text(encode_envelope(&big.into_envelope())),
        "{\"id\":18446744073709551615,\"result\":null}"
    );
}

#[test]
fn error_on_the_wire() {
    let msg = Message::Error { id: 7, code: -32601, message: "no \"such\" tool\\".to_string() };
    assert_eq!(
        text(encode_envelope(&msg.into_envelope())),
        "{\"id\":7,\"error\":{\"code\":-32601,\"message\":\"no \\\"such\\\" tool\\\\\"}}"
    );
    let low = Message::Error { id: 1, code: i64::MIN, message: String::new() };
    assert_eq!(
        text(encode_envelope(&low.into_envelope())),
        "{\"id\":1,\"error\":{\"code\":-9223372036854775808,\"message\":\"\"}}"
    );
    let high = Message::Error { id: 1, code: i64::MAX, message: "x".to_string() };
    assert_eq!(
        text(encode_envelope(&high.into_envelope())),
        "{\"id\":1,\"error\":{\"code\":9223372036854775807,\"message\":\"x\"}}"
    );
}

#[test]
fn notification_on_the_wire() {
    let msg = Message::Notification { method: "log".to_string(), params: b"{}".to_vec() };
    assert_eq!(text(encode_envelope(&msg.into_envelope())), "{\"method\":\"log\",\"params\":{}}");
}

#[test]
fn control_characters_are_escaped_and_other_text_kept() {
    let msg = Message::Notification {
        method: "a\nb\t\u{1f}\u{0}z \u{e9}\u{4e16}".to_string(),
        params: b"0".to_vec(),
    };
    assert_eq!(
        text(encode_envelope(&msg.into_envelope())),
        "{\"method\":\"a\\u000ab\\u0009\\u001f\\u0000z \u{e9}\u{4e16}\",\"params\":0}"
    );
}

#[test]
fn members_that_are_absent_are_not_written() {
    let none = Envelope { id: None, method: None, params: None, result: None, error: None };
    assert_eq!(text(encode_envelope(&none)), "{}");
    let all = Envelope {
        id: Some(1),
        method: Some("m".to_string()),
        params: Some(b"1".to_vec()),
        result: Some(b"2".to_vec()),
        error: Some(ErrorBody { code: 3, message: "e".to_string() }),
    };
    assert_eq!(
        text(encode_envelope(&all)),
        "{\"id\":1,\"method\":\"m\",\"params\":1,\"result\":2,\"error\":{\"code\":3,\"message\":\"e\"}}"
    );
    let only = Envelope { id: None, method: None, params: None, result: Some(b"2".to_vec()), error: None };
    assert_eq!(text(encode_envelope(&only)), "{\"result\":2}");
}

#[test]
fn a_message_is_sent_as_one_frame() {
    let msg = Message::Request { id: 1, method: "line\nbreak".to_string(), params: b"{}".to_vec() };
    let bytes = encode_message(msg).unwrap();
    assert_eq!(
        text(bytes.clone()),
        "{\"id\":1,\"method\":\"line\\u000abreak\",\"params\":{}}\n"
    );
    let mut buf = FrameBuffer::new();
    buf.extend(&bytes);
    assert_eq!(buf.next_frame().map(|f| f.len()), Some(bytes.len() - 1));
    assert_eq!(buf.len(), 0);
}

#[test]
fn a_message_with_a_line_feed_in_its_parameters_is_refused() {
    let msg = Message::Request { id: 1, method: "m".to_string(), params: b"{\n}".to_vec() };
    assert!(matches!(encode_message(msg), Err(TransportError::DelimiterInPayload)));
    let answer = Message::Response { id: 1, result: b"[\n]".to_vec() };
    assert!(matches!(encode_message(answer), Err(TransportError::DelimiterInPayload)));
}
