use mcp_broker::framing::TransportError;
use mcp_broker::message::Message;
use mcp_broker::reader::{decode_envelope, decode_message};
use mcp_broker::wire::encode_envelope;

fn read(text: &str) -> Result<Message, TransportError> {
    decode_message(text.as_bytes().to_vec())
}

fn malformed(text: &str) -> bool {
    match read(text) {
        Err(TransportError::MalformedFrame(raw)) => raw == text.as_bytes().to_vec(),
        _ => false,
    }
}

#[test]
fn reads_a_response_among_other_members() {
    match read("{\"jsonrpc\":\"2.0\",\"id\":1,\"result\":{\"tools\":[{\"name\":\"list_vms\"},{\"name\":\"start_vm\"}]}}") {
        Ok(Message::Response { id, result }) => {
            assert_eq!(id, 1);
            assert_eq!(
                String::from_utf8(result).unwrap(),
                "{\"tools\":[{\"name\":\"list_vms\"},{\"name\":\"start_vm\"}]}"
            );
        }
        other => panic!("unexpected {:?}", other),
    }
}

#[test]
fn reads_members_in_any_order_and_layout() {
    match read(" \t{ \"params\" : [ 1 , \"}\" , { \"a\" : \"]\\\"\" } ] ,\r\n \"method\":\"tools/call\" , \"id\" : 42 } ") {
        Ok(Message::Request { id, method, params }) => {
            assert_eq!(id, 42);
            assert_eq!(method, "tools/call");
            assert_eq!(
                String::from_utf8(params).unwrap(),
                "[ 1 , \"}\" , { \"a\" : \"]\\\"\" } ]"
            );
        }
        other => panic!("unexpected {:?}", other),
    }
}

#[test]
fn reads_a_notification_without_parameters() {
    match read("{\"method\":\"notifications/progress\"}") {
        Ok(Message::Notification { method, params }) => {
            assert_eq!(method, "notifications/progress");
            assert!(params.is_empty());
        }
        other => panic!("unexpected {:?}", other),
    }
}

#[test]
fn reads_an_error_with_its_code_and_message() {
    match read("{\"id\":3,\"error\":{\"message\":\"line\\nbreak \\u00e9 \\u4e16 \\\"q\\\" \\/ \\\\\",\"data\":[{}],\"code\":-32601}}") {
        Ok(Message::Error { id, code, message }) => {
            assert_eq!(id, 3);
            assert_eq!(code, -32601);
            assert_eq!(message, "line\nbreak \u{e9} \u{4e16} \"q\" / \\");
        }
        other => panic!("unexpected {:?}", other),
    }
    match read("{\"id\":3,\"error\":{\"code\":-9223372036854775808,\"message\":\"\"}}") {
        Ok(Message::Error { code, message, .. }) => {
            assert_eq!(code, i64::MIN);
            assert_eq!(message, "");
        }
        other => panic!("unexpected {:?}", other),
    }
    match read("{\"id\":3,\"error\":{\"code\":9223372036854775807,\"message\":\"\\b\\f\\r\\t\\u0041\"}}") {
        Ok(Message::Error { code, message, .. }) => {
            assert_eq!(code, i64::MAX);
            assert_eq!(message, "\u{8}\u{c}\r\tA");
        }
        other => panic!("unexpected {:?}", other),
    }
}

#[test]
fn reads_text_that_is_not_ascii() {
    match read("{\"method\":\"caf\u{e9} \u{4e16}\u{754c} \u{1f600}\"}") {
        Ok(Message::Notification { method, .. }) => {
            assert_eq!(method, "caf\u{e9} \u{4e16}\u{754c} \u{1f600}")
        }
        other => panic!("unexpected {:?}", other),
    }
}

#[test]
fn reads_escaped_surrogate_pairs() {
    match read("{\"method\":\"\\ud83d\\ude00 \\uD800\\uDC00 \\udbff\\udfff \\uffff\"}") {
        Ok(Message::Notification { method, .. }) => {
            assert_eq!(method, "\u{1f600} \u{10000} \u{10ffff} \u{ffff}")
        }
        other => panic!("unexpected {:?}", other),
    }
}

#[test]
fn a_member_named_again_replaces_the_earlier_one() {
    match read("{\"id\":1,\"result\":1,\"id\":2,\"result\":\"two\"}") {
        Ok(Message::Response { id, result }) => {
            assert_eq!(id, 2);
            assert_eq!(result, b"\"two\"".to_vec());
        }
        other => panic!("unexpected {:?}", other),
    }
}

#[test]
fn the_largest_identifier_is_read_and_a_larger_one_refused() {
    assert!(matches!(
        read("{\"id\":18446744073709551615,\"result\":null}"),
        Ok(Message::Response { id: u64::MAX, .. })
    ));
    assert!(malformed("{\"id\":18446744073709551616,\"result\":null}"));
    assert!(malformed("{\"id\":99999999999999999999999,\"result\":null}"));
    assert!(malformed("{\"id\":007,\"result\":0}"));
    assert!(matches!(read("{\"id\":0,\"result\":0}"), Ok(Message::Response { id: 0, .. })));
}

#[test]
fn malformed_frames_come_back_in_the_error() {
    for text in [
        "",
        "   ",
        "[]",
        "{",
        "{}",
        "{\"id\":1}",
        "{\"id\":1,\"result\":1",
        "{\"id\":1,\"result\":1}x",
        "{\"id\":1,\"result\":1}{}",
        "{\"id\":1,,\"result\":1}",
        "{\"id\":1,\"result\":1,}",
        "{\"id\":1 \"result\":1}",
        "{\"id\":-1,\"result\":1}",
        "{\"id\":1.5,\"result\":1}",
        "{\"id\":\"1\",\"result\":1}",
        "{\"id\":null,\"result\":1}",
        "{\"id\":1,\"result\":}",
        "{\"id\":1,\"result\":[1,2}",
        "{\"id\":1,\"result\":\"open}",
        "{id:1,\"result\":1}",
        "{\"id\":1,\"bad \\x key\":1,\"result\":1}",
        "{\"id\":1,\"result\":1,\"error\":{\"code\":1,\"message\":\"m\",\"bad \\x\":1}}",
        "{\"method\":5}",
        "{\"method\":\"bad \\x escape\"}",
        "{\"method\":\"cut \\u12\"}",
        "{\"method\":\"not hex \\u12g4\"}",
        "{\"method\":\"half \\ud83d\"}",
        "{\"method\":\"half \\ud83d\\u0041\"}",
        "{\"method\":\"half \\ud83dxxxxxx\"}",
        "{\"method\":\"low first \\ude00\\ud83d\"}",
        "{\"method\":\"tab\there\"}",
        "{\"id\":1,\"error\":{\"code\":1}}",
        "{\"id\":1,\"error\":{\"message\":\"m\"}}",
        "{\"id\":1,\"error\":{\"code\":\"1\",\"message\":\"m\"}}",
        "{\"id\":1,\"error\":{\"code\":9223372036854775808,\"message\":\"m\"}}",
        "{\"id\":1,\"error\":{\"code\":-9223372036854775809,\"message\":\"m\"}}",
        "{\"id\":1,\"error\":{\"code\":-,\"message\":\"m\"}}",
        "{\"id\":1,\"error\":[]}",
        "{\"id\":1,\"error\":{}}",
        "{\"id\":1,\"error\":null}",
        "{\"id\":1,\"result\":1,\"error\":{\"code\":1,\"message\":\"m\"}}",
        "{\"id\":1,\"method\":\"m\",\"result\":1}",
        "{\"result\":1}",
    ] {
        assert!(malformed(text), "accepted: {}", text);
    }
    let mut bad = b"{\"method\":\"".to_vec();
    bad.push(0xff);
    bad.extend_from_slice(b"\"}");
    assert!(matches!(decode_message(bad.clone()), Err(TransportError::MalformedFrame(raw)) if raw == bad));
}

#[test]
fn an_envelope_is_read_with_the_members_it_has() {
    let env = decode_envelope(b"{ }").unwrap();
    assert!(env.id.is_none() && env.method.is_none() && env.params.is_none());
    assert!(env.result.is_none() && env.error.is_none());
    let env = decode_envelope(b"{\"id\":1,\"x\":{\"id\":9},\"params\":true}").unwrap();
    assert_eq!(env.id, Some(1));
    assert_eq!(env.params, Some(b"true".to_vec()));
    assert!(decode_envelope(b"{\"id\":1").is_none());
}

#[test]
fn what_is_written_is_read_back() {
    let messages = vec![
        Message::Request { id: 5, method: "tools/\"call\"\n\\".to_string(), params: b"{\"a\":[1,\"x,}\"]}".to_vec() },
        Message::Response { id: u64::MAX, result: b"\"text\"".to_vec() },
        Message::Error { id: 0, code: i64::MIN, message: "caf\u{e9}\u{1}\u{1f600}".to_string() },
        Message::Notification { method: "".to_string(), params: b"null".to_vec() },
    ];
    for msg in messages {
        let shown = format!("{:?}", msg);
        let bytes = encode_envelope(&msg.into_envelope());
        let back = decode_message(bytes).unwrap();
        assert_eq!(format!("{:?}", back), shown);
    }
}

#[test]
fn values_that_are_json_are_carried_as_they_stand() {
    for value in [
        "0",
        "-0",
        "-0.5e+10",
        "1E5",
        "12.25",
        "3e-2",
        "true",
        "false",
        "null",
        "\"\"",
        "\"a \\\" b \\u00e9 \\n\"",
        "[]",
        "{}",
        "[ ]",
        "{ }",
        "[[],{}]",
        "[1, 2 ,3]",
        "{\"a\":{\"b\":[null,true,false,{\"c\":\"}\"}]},\"d\":-1}",
        "[\"]\",\"[\",\"{\",\",\"]",
    ] {
        let text = format!("{{\"id\":1,\"extra\":{},\"result\":{}}}", value, value);
        match read(&text) {
            Ok(Message::Response { id, result }) => {
                assert_eq!(id, 1);
                assert_eq!(String::from_utf8(result).unwrap(), value);
            }
            other => panic!("unexpected {:?} for {}", other, value),
        }
    }
}

#[test]
fn values_that_are_not_json_make_the_frame_malformed() {
    for value in [
        "bogus",
        "tru",
        "True",
        "nulll",
        "01",
        "1.",
        ".5",
        "-",
        "+1",
        "1e",
        "1e+",
        "0x10",
        "1 2",
        "[1,]",
        "[,1]",
        "[1 2]",
        "[1,,2]",
        "[1}",
        "{1]",
        "{\"a\"}",
        "{\"a\":}",
        "{\"a\":1,}",
        "{,\"a\":1}",
        "{\"a\":1 \"b\":2}",
        "{\"a\" 1}",
        "{a:1}",
        "{1:1}",
        "[\"bad \\x\"]",
        "[\"cut \\u12\"]",
        "\"tab\there\"",
        "[[]",
        "[]]",
    ] {
        let as_result = format!("{{\"id\":1,\"result\":{}}}", value);
        assert!(malformed(&as_result), "accepted as result: {}", value);
        let as_other = format!("{{\"id\":1,\"other\":{},\"result\":1}}", value);
        assert!(malformed(&as_other), "accepted as member: {}", value);
    }
}
