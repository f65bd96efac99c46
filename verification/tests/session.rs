use mcp_broker::command::{context_server_command, Command};
use mcp_broker::framing::TransportError;
use mcp_broker::message::{Dispatch, Message};
use mcp_broker::registry::ToolDescriptor;
use mcp_broker::session::{
    CallError, ExitOutcome, FailureCause, FrameVerdict, FramingMode, Received, Session,
    SessionState,
};
use mcp_broker::wire::encode_message;
use mcp_broker::supervisor::{Decision, ExitStatus, SupervisorPolicy};

fn uv() -> Command {
    Command { executable: "uv".to_string(), args: vec!["run".to_string()], env: Vec::new() }
}

fn tool(name: &str) -> ToolDescriptor {
    ToolDescriptor {
        name: name.to_string(),
        schema: "{}".to_string(),
        description: format!("the tool {}", name),
    }
}

fn ready_session(mode: FramingMode, max_restarts: u32) -> Session {
    let mut s = Session::new("s1".to_string(), uv(), "initialize".to_string(), mode, SupervisorPolicy::new(max_restarts, 100, 1000));
    let init = s.child_spawned().unwrap();
    assert_eq!(request_id(&init), 0);
    assert!(s.complete_handshake(&vec![tool("list_vms"), tool("start_vm")]));
    s
}

fn names(s: &Session) -> Vec<String> {
    let mut out = Vec::new();
    for t in s.list_tools() {
        out.push(t.name.clone());
    }
    out
}

fn request_id(m: &Message) -> u64 {
    match m {
        Message::Request { id, .. } => *id,
        _ => panic!("not a request"),
    }
}

#[test]
fn handshake_lists_the_two_advertised_tools_in_order() {
    let cmd = context_server_command("virtualization-mcp").unwrap();
    let mut s = Session::new(
        "virt".to_string(),
        cmd,
        "initialize".to_string(),
        FramingMode::Lenient,
        SupervisorPolicy::new(0, 0, 0),
    );
    assert_eq!(s.command().executable, "uv");
    assert_eq!(
        s.command().args,
        vec!["run".to_string(), "virtualization_mcp.all_tools_server:main".to_string()]
    );
    assert!(s.command().env.is_empty());
    assert_eq!(s.state(), SessionState::Starting);
    let init = match s.child_spawned() {
        Some(Message::Request { id, method, params }) => {
            assert_eq!(method, "initialize");
            assert!(params.is_empty());
            id
        }
        other => panic!("unexpected {:?}", other),
    };
    assert_eq!(s.state(), SessionState::Handshaking);
    let reply = Message::Response { id: init, result: b"tools".to_vec() };
    match s.dispatch(reply) {
        Dispatch::HandshakeReply { result } => assert_eq!(result, b"tools".to_vec()),
        other => panic!("unexpected {:?}", other),
    }
    assert!(s.complete_handshake(&vec![tool("list_vms"), tool("start_vm")]));
    assert_eq!(s.state(), SessionState::Ready);
    assert_eq!(names(&s), vec!["list_vms".to_string(), "start_vm".to_string()]);
}

#[test]
fn a_tool_advertised_twice_is_listed_once() {
    let mut s = Session::new("s".to_string(), uv(), "initialize".to_string(), FramingMode::Lenient, SupervisorPolicy::new(0, 0, 0));
    s.child_spawned();
    let mut second = tool("list_vms");
    second.description = "again".to_string();
    assert!(s.complete_handshake(&vec![tool("list_vms"), tool("start_vm"), second]));
    assert_eq!(names(&s), vec!["list_vms".to_string(), "start_vm".to_string()]);
    assert_eq!(s.list_tools()[0].description, "the tool list_vms");
}

#[test]
fn spawn_failure_fails_the_session() {
    let mut s = Session::new("s".to_string(), uv(), "initialize".to_string(), FramingMode::Lenient, SupervisorPolicy::new(3, 1, 10));
    assert_eq!(s.failure(), None);
    s.spawn_failed();
    assert_eq!(s.state(), SessionState::Failed);
    assert_eq!(s.failure(), Some(FailureCause::Spawn));
    assert!(s.child_spawned().is_none());
    assert_eq!(s.state(), SessionState::Failed);
}

#[test]
fn handshake_timeout_fails_the_session() {
    let mut s = Session::new("s".to_string(), uv(), "initialize".to_string(), FramingMode::Lenient, SupervisorPolicy::new(3, 1, 10));
    s.child_spawned();
    assert!(s.handshake_timed_out());
    assert_eq!(s.state(), SessionState::Failed);
    assert_eq!(s.failure(), Some(FailureCause::HandshakeTimeout));
    assert!(!s.handshake_timed_out());
    assert!(!s.complete_handshake(&vec![tool("a")]));
    assert_eq!(s.state(), SessionState::Failed);
}

#[test]
fn handshake_error_reply_fails_the_session() {
    let mut s = Session::new("s".to_string(), uv(), "initialize".to_string(), FramingMode::Lenient, SupervisorPolicy::new(3, 1, 10));
    let init = request_id(&s.child_spawned().unwrap());
    let refusal = Message::Error { id: init, code: -1, message: "no".to_string() };
    match s.dispatch(refusal) {
        Dispatch::HandshakeRefused { code, message } => {
            assert_eq!(code, -1);
            assert_eq!(message, "no");
        }
        other => panic!("unexpected {:?}", other),
    }
    assert_eq!(s.state(), SessionState::Failed);
    assert_eq!(s.failure(), Some(FailureCause::HandshakeRefused));
}

#[test]
fn answers_out_of_order_reach_their_own_calls() {
    let mut s = ready_session(FramingMode::Lenient, 0);
    let a = s.call("list_vms", b"{}".to_vec(), None).unwrap();
    let b = s.call("start_vm", b"{\"vm\":1}".to_vec(), Some(50)).unwrap();
    match &a {
        Message::Request { id, method, params } => {
            assert_eq!(*id, 1);
            assert_eq!(method, "list_vms");
            assert_eq!(params, &b"{}".to_vec());
        }
        _ => panic!("not a request"),
    }
    let (a, b) = (request_id(&a), request_id(&b));
    assert_eq!(b, 2);
    assert!(s.is_pending(a) && s.is_pending(b));
    match s.dispatch(Message::Response { id: b, result: b"started".to_vec() }) {
        Dispatch::Resolved { id, result } => {
            assert_eq!(id, b);
            assert_eq!(result, b"started".to_vec());
        }
        other => panic!("unexpected {:?}", other),
    }
    assert!(s.is_pending(a) && !s.is_pending(b));
    match s.dispatch(Message::Response { id: a, result: b"vms".to_vec() }) {
        Dispatch::Resolved { id, result } => {
            assert_eq!(id, a);
            assert_eq!(result, b"vms".to_vec());
        }
        other => panic!("unexpected {:?}", other),
    }
    assert!(s.is_idle());
    assert!(matches!(
        s.dispatch(Message::Response { id: a, result: b"again".to_vec() }),
        Dispatch::Dropped
    ));
    assert_eq!(s.state(), SessionState::Ready);
}

#[test]
fn tool_error_fails_one_call_and_keeps_the_session() {
    let mut s = ready_session(FramingMode::Lenient, 0);
    let a = request_id(&s.call("list_vms", vec![], None).unwrap());
    match s.dispatch(Message::Error { id: a, code: 7, message: "boom".to_string() }) {
        Dispatch::ToolFailed { id, code, message } => {
            assert_eq!((id, code), (a, 7));
            assert_eq!(message, "boom");
        }
        other => panic!("unexpected {:?}", other),
    }
    assert_eq!(s.state(), SessionState::Ready);
    assert!(!s.is_pending(a));
}

#[test]
fn notifications_are_passed_on_and_requests_dropped() {
    let mut s = ready_session(FramingMode::Lenient, 0);
    match s.dispatch(Message::Notification { method: "log".to_string(), params: vec![1] }) {
        Dispatch::Notify { method, params } => {
            assert_eq!(method, "log");
            assert_eq!(params, vec![1]);
        }
        other => panic!("unexpected {:?}", other),
    }
    assert!(matches!(
        s.dispatch(Message::Request { id: 9, method: "x".to_string(), params: vec![] }),
        Dispatch::Dropped
    ));
    assert!(matches!(
        s.dispatch(Message::Response { id: 99, result: vec![] }),
        Dispatch::Dropped
    ));
}

#[test]
fn cancelled_call_drops_a_late_answer_and_its_id_is_not_reused() {
    let mut s = ready_session(FramingMode::Lenient, 0);
    let a = request_id(&s.call("list_vms", vec![], None).unwrap());
    assert!(s.cancel(a));
    assert!(!s.cancel(a));
    assert!(!s.is_pending(a));
    let b = request_id(&s.call("list_vms", vec![], None).unwrap());
    assert_ne!(a, b);
    assert!(matches!(
        s.dispatch(Message::Response { id: a, result: b"late".to_vec() }),
        Dispatch::Dropped
    ));
    assert!(s.is_pending(b));
    assert_eq!(s.state(), SessionState::Ready);
}

#[test]
fn a_call_times_out_only_after_its_deadline() {
    let mut s = ready_session(FramingMode::Lenient, 0);
    let a = request_id(&s.call("list_vms", vec![], Some(100)).unwrap());
    let b = request_id(&s.call("list_vms", vec![], None).unwrap());
    assert!(!s.time_out(a, 99));
    assert!(s.is_pending(a));
    assert!(!s.time_out(b, u64::MAX));
    assert!(s.time_out(a, 100));
    assert!(!s.is_pending(a));
    assert!(s.is_pending(b));
    assert!(!s.time_out(a, 200));
    assert_eq!(s.state(), SessionState::Ready);
}

#[test]
fn malformed_frame_is_skipped_in_lenient_mode() {
    let mut s = ready_session(FramingMode::Lenient, 0);
    let a = request_id(&s.call("list_vms", vec![], None).unwrap());
    match s.malformed_frame(b"{oops".to_vec()) {
        FrameVerdict::Skipped { error: TransportError::MalformedFrame(raw) } => {
            assert_eq!(raw, b"{oops".to_vec())
        }
        other => panic!("unexpected {:?}", other),
    }
    assert_eq!(s.state(), SessionState::Ready);
    assert!(s.is_pending(a));
}

#[test]
fn malformed_frame_fails_a_strict_session() {
    let mut s = ready_session(FramingMode::Strict, 0);
    let a = request_id(&s.call("list_vms", vec![], None).unwrap());
    let b = request_id(&s.call("start_vm", vec![], None).unwrap());
    match s.malformed_frame(b"{oops".to_vec()) {
        FrameVerdict::Aborted { error: TransportError::MalformedFrame(raw), failed_calls } => {
            assert_eq!(raw, b"{oops".to_vec());
            assert_eq!(failed_calls, vec![a, b]);
        }
        other => panic!("unexpected {:?}", other),
    }
    assert_eq!(s.state(), SessionState::Failed);
    assert_eq!(s.failure(), Some(FailureCause::MalformedFrame));
    assert!(s.is_idle());
    assert!(matches!(s.malformed_frame(vec![]), FrameVerdict::Skipped { .. }));
}

#[test]
fn crash_restarts_once_then_fails() {
    let mut s = ready_session(FramingMode::Lenient, 1);
    let a = request_id(&s.call("list_vms", vec![], None).unwrap());
    let status = ExitStatus { code: 1, abnormal: false };
    match s.child_exited(status) {
        ExitOutcome::Crashed { failed_calls, decision } => {
            assert_eq!(failed_calls, vec![a]);
            assert_eq!(decision, Decision::Restart { backoff_ms: 100 });
        }
        other => panic!("unexpected {:?}", other),
    }
    assert_eq!(s.state(), SessionState::Starting);
    assert_eq!(s.restarts(), 1);
    assert!(!s.is_pending(a));
    let init = request_id(&s.child_spawned().unwrap());
    assert!(init > a);
    assert!(s.complete_handshake(&vec![tool("list_vms"), tool("start_vm")]));
    assert_eq!(s.state(), SessionState::Ready);
    match s.child_exited(status) {
        ExitOutcome::Crashed { failed_calls, decision } => {
            assert!(failed_calls.is_empty());
            assert_eq!(decision, Decision::Fail);
        }
        other => panic!("unexpected {:?}", other),
    }
    assert_eq!(s.state(), SessionState::Failed);
    assert_eq!(s.failure(), Some(FailureCause::ChildCrashed));
    assert!(matches!(s.child_exited(status), ExitOutcome::Ignored));
}

#[test]
fn undeclared_tool_fails_without_a_request() {
    let mut s = ready_session(FramingMode::Lenient, 0);
    match s.call("delete_everything", vec![], None) {
        Err(e) => assert_eq!(e, CallError::UnknownTool),
        Ok(_) => panic!("a request was made"),
    }
    assert!(s.is_idle());
    let next = request_id(&s.call("list_vms", vec![], None).unwrap());
    assert_eq!(next, 1);
}

#[test]
fn calls_are_refused_unless_ready() {
    let mut s = Session::new("s".to_string(), uv(), "initialize".to_string(), FramingMode::Lenient, SupervisorPolicy::new(0, 0, 0));
    match s.call("list_vms", vec![], None) {
        Err(e) => assert_eq!(e, CallError::NotAccepting(SessionState::Starting)),
        Ok(_) => panic!("a request was made"),
    }
    let mut s = ready_session(FramingMode::Lenient, 0);
    assert!(s.shutdown());
    match s.call("list_vms", vec![], None) {
        Err(e) => assert_eq!(e, CallError::NotAccepting(SessionState::Draining)),
        Ok(_) => panic!("a request was made"),
    }
}

#[test]
fn shutdown_drains_then_closes() {
    let mut s = ready_session(FramingMode::Lenient, 0);
    let a = request_id(&s.call("list_vms", vec![], None).unwrap());
    let b = request_id(&s.call("start_vm", vec![], None).unwrap());
    assert!(s.shutdown());
    assert_eq!(s.state(), SessionState::Draining);
    assert!(!s.is_drained());
    assert!(matches!(
        s.dispatch(Message::Response { id: a, result: vec![] }),
        Dispatch::Resolved { .. }
    ));
    assert_eq!(s.close(), vec![b]);
    assert_eq!(s.state(), SessionState::Closed);
    assert!(!s.shutdown());
    assert!(s.close().is_empty());
    assert_eq!(s.state(), SessionState::Closed);
}

#[test]
fn child_exit_while_draining_closes_the_session() {
    let mut s = ready_session(FramingMode::Lenient, 5);
    let a = request_id(&s.call("list_vms", vec![], None).unwrap());
    s.shutdown();
    match s.child_exited(ExitStatus { code: 0, abnormal: false }) {
        ExitOutcome::Closed { unresolved } => assert_eq!(unresolved, vec![a]),
        other => panic!("unexpected {:?}", other),
    }
    assert_eq!(s.state(), SessionState::Closed);
    assert_eq!(s.restarts(), 0);
}

#[test]
fn drained_session_has_nothing_outstanding() {
    let mut s = ready_session(FramingMode::Lenient, 0);
    assert_eq!(s.name(), "s1");
    assert!(s.is_idle());
    assert!(!s.is_drained());
    s.shutdown();
    assert!(s.is_drained());
    assert!(s.registry().contains("start_vm"));
}

#[test]
fn expire_gives_up_every_overdue_call() {
    let mut s = ready_session(FramingMode::Lenient, 0);
    let a = request_id(&s.call("list_vms", vec![], Some(100)).unwrap());
    let b = request_id(&s.call("list_vms", vec![], None).unwrap());
    let c = request_id(&s.call("start_vm", vec![], Some(300)).unwrap());
    let d = request_id(&s.call("start_vm", vec![], Some(200)).unwrap());
    assert!(s.expire(99).is_empty());
    assert_eq!(s.expire(200), vec![a, d]);
    assert!(!s.is_pending(a) && s.is_pending(b) && s.is_pending(c) && !s.is_pending(d));
    assert!(matches!(
        s.dispatch(Message::Response { id: d, result: vec![] }),
        Dispatch::Dropped
    ));
    assert!(matches!(
        s.dispatch(Message::Response { id: c, result: vec![] }),
        Dispatch::Resolved { .. }
    ));
    assert_eq!(s.expire(u64::MAX), Vec::<u64>::new());
    assert!(s.is_pending(b));
    assert_eq!(s.state(), SessionState::Ready);
}

#[test]
fn frames_that_arrive_are_read_and_handled() {
    let mut s = ready_session(FramingMode::Lenient, 0);
    let request = s.call("list_vms", b"{}".to_vec(), None).unwrap();
    let a = request_id(&request);
    assert_eq!(
        encode_message(request).unwrap(),
        b"{\"id\":1,\"method\":\"list_vms\",\"params\":{}}\n".to_vec()
    );
    match s.receive(b"{\"jsonrpc\":\"2.0\",\"method\":\"log\",\"params\":[1]}".to_vec()) {
        Received::Message(Dispatch::Notify { method, params }) => {
            assert_eq!(method, "log");
            assert_eq!(params, b"[1]".to_vec());
        }
        other => panic!("unexpected {:?}", other),
    }
    match s.receive(b"{\"id\":1,\"result\":".to_vec()) {
        Received::Malformed(FrameVerdict::Skipped {
            error: TransportError::MalformedFrame(raw),
        }) => assert_eq!(raw, b"{\"id\":1,\"result\":".to_vec()),
        other => panic!("unexpected {:?}", other),
    }
    assert!(s.is_pending(a));
    match s.receive(b"{\"jsonrpc\":\"2.0\",\"id\":1,\"result\":[\"vm1\"]}".to_vec()) {
        Received::Message(Dispatch::Resolved { id, result }) => {
            assert_eq!(id, a);
            assert_eq!(result, b"[\"vm1\"]".to_vec());
        }
        other => panic!("unexpected {:?}", other),
    }
    assert!(s.is_idle());
    assert_eq!(s.state(), SessionState::Ready);
}

#[test]
fn a_strict_session_fails_over_a_frame_it_cannot_read() {
    let mut s = ready_session(FramingMode::Strict, 0);
    let a = request_id(&s.call("list_vms", vec![], None).unwrap());
    match s.receive(b"not json".to_vec()) {
        Received::Malformed(FrameVerdict::Aborted {
            error: TransportError::MalformedFrame(raw),
            failed_calls,
        }) => {
            assert_eq!(raw, b"not json".to_vec());
            assert_eq!(failed_calls, vec![a]);
        }
        other => panic!("unexpected {:?}", other),
    }
    assert_eq!(s.state(), SessionState::Failed);
    assert_eq!(s.failure(), Some(FailureCause::MalformedFrame));
}
