use mcp_broker::command::{context_server_command, LookupError};
use mcp_broker::framing::{encode_frame, FrameBuffer, TransportError};
use mcp_broker::message::{Envelope, ErrorBody, Message, MessageKind};
use mcp_broker::registry::{RegistryError, ToolDescriptor, ToolRegistry};
use mcp_broker::supervisor::{Decision, ExitStatus, SupervisorPolicy};

fn tool(name: &str, description: &str) -> ToolDescriptor {
    ToolDescriptor {
        name: name.to_string(),
        schema: String::new(),
        description: description.to_string(),
    }
}

#[test]
fn known_server_gives_its_command() {
    let cmd = context_server_command("virtualization-mcp").unwrap();
    assert_eq!(cmd.executable, "uv");
    assert_eq!(
        cmd.args,
        vec!["run".to_string(), "virtualization_mcp.all_tools_server:main".to_string()]
    );
    assert!(cmd.env.is_empty());
}

#[test]
fn unknown_server_is_refused_by_name() {
    match context_server_command("other") {
        Err(LookupError::UnknownServerId(name)) => assert_eq!(name, "other"),
        Ok(_) => panic!("a command was found"),
    }
    assert!(context_server_command("").is_err());
    assert!(context_server_command("virtualization-mcp ").is_err());
}

#[test]
fn frames_survive_any_cut_of_the_reads() {
    let mut buf = FrameBuffer::new();
    buf.extend(b"{\"id\"");
    assert!(buf.next_frame().is_none());
    assert_eq!(buf.len(), 5);
    buf.extend(b":1}\n{\"id\":2}\n{\"i");
    assert_eq!(buf.next_frame(), Some(b"{\"id\":1}".to_vec()));
    assert_eq!(buf.next_frame(), Some(b"{\"id\":2}".to_vec()));
    assert!(buf.next_frame().is_none());
    assert_eq!(buf.len(), 3);
    match buf.finish() {
        Err(TransportError::Truncated(rest)) => assert_eq!(rest, b"{\"i".to_vec()),
        other => panic!("unexpected {:?}", other),
    }
}

#[test]
fn empty_frame_and_clean_end() {
    let mut buf = FrameBuffer::new();
    buf.extend(b"\nx\n");
    assert_eq!(buf.next_frame(), Some(Vec::new()));
    assert_eq!(buf.next_frame(), Some(b"x".to_vec()));
    assert!(buf.next_frame().is_none());
    assert!(buf.finish().is_ok());
}

#[test]
fn encoded_frame_comes_back_as_sent() {
    let bytes = encode_frame(b"{\"method\":\"ping\"}").unwrap();
    assert_eq!(bytes, b"{\"method\":\"ping\"}\n".to_vec());
    let mut buf = FrameBuffer::new();
    buf.extend(&bytes);
    buf.extend(b"rest");
    assert_eq!(buf.next_frame(), Some(b"{\"method\":\"ping\"}".to_vec()));
    assert_eq!(buf.len(), 4);
    assert_eq!(encode_frame(b"").unwrap(), b"\n".to_vec());
}

#[test]
fn payload_with_delimiter_is_not_framed() {
    assert!(matches!(encode_frame(b"a\nb"), Err(TransportError::DelimiterInPayload)));
    assert!(matches!(encode_frame(b"\n"), Err(TransportError::DelimiterInPayload)));
}

#[test]
fn registry_keeps_the_first_of_each_name() {
    let reg = ToolRegistry::from_advertised(&vec![
        tool("a", "first"),
        tool("b", "second"),
        tool("a", "third"),
    ]);
    assert_eq!(reg.len(), 2);
    assert_eq!(reg.list()[0].name, "a");
    assert_eq!(reg.list()[1].name, "b");
    assert_eq!(reg.describe("a").unwrap().description, "first");
    assert!(reg.contains("b"));
    assert!(!reg.contains("c"));
}

#[test]
fn registry_describe_unknown_tool() {
    let reg = ToolRegistry::from_advertised(&vec![tool("a", "first")]);
    match reg.describe("zz") {
        Err(RegistryError::UnknownTool(name)) => assert_eq!(name, "zz"),
        Ok(_) => panic!("found"),
    }
    let empty = ToolRegistry::new();
    assert_eq!(empty.len(), 0);
    assert!(empty.describe("a").is_err());
}

#[test]
fn descriptor_duplicate_is_equal_field_by_field() {
    let t = tool("a", "first");
    let d = t.duplicate();
    assert_eq!((d.name, d.schema, d.description), (t.name, t.schema, t.description));
}

#[test]
fn backoff_doubles_up_to_the_cap() {
    let p = SupervisorPolicy::new(10, 100, 1000);
    assert_eq!(p.backoff(0), 100);
    assert_eq!(p.backoff(1), 200);
    assert_eq!(p.backoff(2), 400);
    assert_eq!(p.backoff(3), 800);
    assert_eq!(p.backoff(4), 1000);
    assert_eq!(p.backoff(u32::MAX), 1000);
    assert_eq!(SupervisorPolicy::new(1, 0, 50).backoff(u32::MAX), 0);
    assert_eq!(SupervisorPolicy::new(1, 70, 50).backoff(0), 50);
    assert_eq!(SupervisorPolicy::new(1, 1, u64::MAX).backoff(63), 1u64 << 63);
    assert_eq!(SupervisorPolicy::new(1, 1, u64::MAX).backoff(64), u64::MAX);
    assert_eq!(SupervisorPolicy::new(1, 3, 0).backoff(5), 0);
}

#[test]
fn supervisor_restarts_within_its_limit() {
    let p = SupervisorPolicy::new(2, 10, 15);
    let crash = ExitStatus { code: 1, abnormal: false };
    let signal = ExitStatus { code: -1, abnormal: true };
    assert_eq!(p.decide(crash, 0), Decision::Restart { backoff_ms: 10 });
    assert_eq!(p.decide(signal, 1), Decision::Restart { backoff_ms: 15 });
    assert_eq!(p.decide(crash, 2), Decision::Fail);
    assert_eq!(p.decide(crash, 3), Decision::Fail);
    assert_eq!(SupervisorPolicy::new(0, 10, 15).decide(crash, 0), Decision::Fail);
}

fn envelope(
    id: Option<u64>,
    method: Option<&str>,
    params: Option<&[u8]>,
    result: Option<&[u8]>,
    error: Option<(i64, &str)>,
) -> Envelope {
    Envelope {
        id,
        method: method.map(|m| m.to_string()),
        params: params.map(|p| p.to_vec()),
        result: result.map(|r| r.to_vec()),
        error: error.map(|(code, message)| ErrorBody { code, message: message.to_string() }),
    }
}

#[test]
fn envelopes_are_read_by_their_members() {
    match Message::from_envelope(envelope(Some(3), Some("tools/call"), Some(b"{}"), None, None)) {
        Some(Message::Request { id, method, params }) => {
            assert_eq!(id, 3);
            assert_eq!(method, "tools/call");
            assert_eq!(params, b"{}".to_vec());
        }
        other => panic!("unexpected {:?}", other),
    }
    match Message::from_envelope(envelope(None, Some("log"), None, None, None)) {
        Some(Message::Notification { method, params }) => {
            assert_eq!(method, "log");
            assert!(params.is_empty());
        }
        other => panic!("unexpected {:?}", other),
    }
    match Message::from_envelope(envelope(Some(4), None, None, Some(b"[1]"), None)) {
        Some(Message::Response { id, result }) => {
            assert_eq!(id, 4);
            assert_eq!(result, b"[1]".to_vec());
        }
        other => panic!("unexpected {:?}", other),
    }
    match Message::from_envelope(envelope(Some(5), None, None, None, Some((-32000, "no")))) {
        Some(Message::Error { id, code, message }) => {
            assert_eq!((id, code), (5, -32000));
            assert_eq!(message, "no");
        }
        other => panic!("unexpected {:?}", other),
    }
}

#[test]
fn envelopes_that_hold_no_message_are_refused() {
    assert!(Message::from_envelope(envelope(None, None, None, None, None)).is_none());
    assert!(Message::from_envelope(envelope(Some(1), None, None, None, None)).is_none());
    assert!(Message::from_envelope(envelope(None, None, None, Some(b"1"), None)).is_none());
    assert!(Message::from_envelope(envelope(None, None, None, None, Some((1, "x")))).is_none());
    assert!(Message::from_envelope(envelope(Some(1), None, None, Some(b"1"), Some((1, "x")))).is_none());
    assert!(Message::from_envelope(envelope(Some(1), Some("m"), None, Some(b"1"), None)).is_none());
    assert!(Message::from_envelope(envelope(Some(1), Some("m"), None, None, Some((1, "x")))).is_none());
    assert!(Message::from_envelope(envelope(Some(1), None, Some(b"p"), Some(b"1"), None)).is_none());
}

#[test]
fn a_message_written_is_read_back() {
    let sent = Message::Request { id: 8, method: "start_vm".to_string(), params: b"{\"n\":1}".to_vec() };
    assert_eq!(sent.kind(), MessageKind::Request);
    let env = sent.into_envelope();
    assert_eq!(env.id, Some(8));
    assert!(env.result.is_none() && env.error.is_none());
    match Message::from_envelope(env) {
        Some(Message::Request { id, method, params }) => {
            assert_eq!(id, 8);
            assert_eq!(method, "start_vm");
            assert_eq!(params, b"{\"n\":1}".to_vec());
        }
        other => panic!("unexpected {:?}", other),
    }
    let failure = Message::Error { id: 2, code: 1, message: "m".to_string() };
    assert_eq!(failure.kind(), MessageKind::Error);
    assert!(matches!(
        Message::from_envelope(failure.into_envelope()),
        Some(Message::Error { id: 2, code: 1, .. })
    ));
    let news = Message::Notification { method: "n".to_string(), params: vec![] };
    assert_eq!(news.kind(), MessageKind::Notification);
    assert!(matches!(
        Message::from_envelope(news.into_envelope()),
        Some(Message::Notification { .. })
    ));
    let answer = Message::Response { id: 1, result: vec![7] };
    assert_eq!(answer.kind(), MessageKind::Response);
    assert!(matches!(
        Message::from_envelope(answer.into_envelope()),
        Some(Message::Response { id: 1, .. })
    ));
}
