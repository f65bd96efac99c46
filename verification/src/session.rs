//! One supervised session with a child tool server.
//!
//! The session makes the decisions and keeps the books. The host does the
//! work: it starts the child, moves the frames and watches the clock, and
//! tells the session what happened. Every method here is one such step.

use vstd::prelude::*;
use crate::command::{Command, CommandView};
use crate::framing::TransportError;
use crate::message::{Dispatch, Message};
use crate::pending::{
    distinct_ids, find_call, has_id, is_due, lemma_lookup, lemma_push, lemma_remove,
    lists_exactly, lists_overdue, not_yet_due, pending_map, take_due, take_ids,
    PendingRequest,
};
use crate::reader::{decode_envelope, frame_holds, frame_is_malformed};
use crate::registry::{distinct_names, first_of_each, has_name, ToolDescriptor, ToolRegistry};
use crate::supervisor::{Decision, ExitStatus, SupervisorPolicy};

verus! {

/// Where a session stands in its life.
#[derive(Clone, Copy, Debug, PartialEq, Eq, Structural)]
pub enum SessionState {
    /// The child is being started.
    Starting,
    /// The initialization request is out and its answer awaited.
    Handshaking,
    /// Calls are accepted.
    Ready,
    /// Shutdown was asked for: no new calls, the outstanding ones may finish.
    Draining,
    /// The session ended in good order.
    Closed,
    /// The session ended on an error that it could not recover from.
    Failed,
}

/// What a frame that cannot be decoded does to the session.
#[derive(Clone, Copy, Debug, PartialEq, Eq, Structural)]
pub enum FramingMode {
    /// Such a frame ends the session.
    Strict,
    /// Such a frame is skipped.
    Lenient,
}

/// Why a session failed.
#[derive(Clone, Copy, Debug, PartialEq, Eq, Structural)]
pub enum FailureCause {
    /// The child could not be started.
    Spawn,
    /// The child did not answer the initialization request in time.
    HandshakeTimeout,
    /// The child answered the initialization request with an error.
    HandshakeRefused,
    /// A strict session received a frame that could not be decoded.
    MalformedFrame,
    /// The child exited and may not be started again.
    ChildCrashed,
    /// Every request identifier has been used.
    IdsExhausted,
}

/// Why a call was not sent.
#[derive(Clone, Copy, Debug, PartialEq, Eq, Structural)]
pub enum CallError {
    /// The session takes calls only while it is ready; it was in this state.
    NotAccepting(SessionState),
    /// The child advertised no tool of this name.
    UnknownTool,
    /// Every request identifier has been used.
    IdsExhausted,
}

/// What became of a frame that could not be decoded.
#[derive(Debug)]
pub enum FrameVerdict {
    /// The frame was skipped; the error carries its bytes, for diagnostics.
    Skipped { error: TransportError },
    /// The session has failed over the frame. The calls listed were
    /// outstanding and fail with it.
    Aborted { error: TransportError, failed_calls: Vec<u64> },
}

/// What became of a frame that arrived.
#[derive(Debug)]
pub enum Received {
    /// The frame held a message, and this was done with it.
    Message(Dispatch),
    /// The frame was malformed, and this became of it.
    Malformed(FrameVerdict),
}

/// What the exit of the child meant for the session.
#[derive(Debug)]
pub enum ExitOutcome {
    /// The child was still needed. The calls listed fail as crashed, and the
    /// supervisor has decided whether the child is started again.
    Crashed { failed_calls: Vec<u64>, decision: Decision },
    /// The session was draining and is now closed. The calls listed were
    /// still outstanding and end with the session.
    Closed { unresolved: Vec<u64> },
    /// The session was not running a child: nothing changed.
    Ignored,
}

/// The mathematical value of a [`Session`].
pub struct SessionView {
    pub name: Seq<char>,
    /// The command that starts the child, at first and after a crash.
    pub command: CommandView,
    /// The method of the initialization request.
    pub handshake_method: Seq<char>,
    pub state: SessionState,
    /// Why the session failed, once it has.
    pub failure: Option<FailureCause>,
    pub mode: FramingMode,
    pub policy: SupervisorPolicy,
    pub tools: Seq<ToolDescriptor>,
    /// The outstanding calls: identifier to deadline.
    pub pending: Map<u64, Option<u64>>,
    /// The identifier that the next request gets. No smaller one is given
    /// out again.
    pub next_id: u64,
    /// The identifier of the initialization request, while it is out.
    pub handshake_id: Option<u64>,
    /// How often the child has been started again.
    pub restarts: u32,
}

impl SessionView {
    /// Whether the session has ended.
    pub open spec fn terminal(self) -> bool {
        self.state == SessionState::Closed || self.state == SessionState::Failed
    }

    /// What holds of every session: identifiers in use lie below the next
    /// one, calls are outstanding only while the session is ready or
    /// draining, the initialization request is out exactly while shaking
    /// hands, a failed session and no other knows why it failed, and no two
    /// tools share a name.
    pub open spec fn wf(self) -> bool {
        &&& forall|id: u64| self.pending.dom().contains(id) ==> id < self.next_id
        &&& match self.handshake_id {
            Some(id) => id < self.next_id && self.state == SessionState::Handshaking,
            None => self.state != SessionState::Handshaking,
        }
        &&& (self.state == SessionState::Ready || self.state == SessionState::Draining
            || self.pending == Map::<u64, Option<u64>>::empty())
        &&& (self.failure.is_some() <==> self.state == SessionState::Failed)
        &&& distinct_names(self.tools)
        &&& self.restarts <= self.policy.max_restarts
    }

    /// The session with no call outstanding.
    pub open spec fn without_calls(self) -> SessionView {
        SessionView { pending: Map::empty(), ..self }
    }

    /// The session in the state `state`, with no initialization request out.
    pub open spec fn moved_to(self, state: SessionState) -> SessionView {
        SessionView { state, handshake_id: None, ..self }
    }

    /// The session failed for `cause`, with no call outstanding.
    pub open spec fn failed(self, cause: FailureCause) -> SessionView {
        SessionView {
            state: SessionState::Failed,
            failure: Some(cause),
            handshake_id: None,
            pending: Map::empty(),
            ..self
        }
    }

    /// After the host reports that the child runs.
    pub open spec fn after_spawn(self) -> SessionView {
        if self.state != SessionState::Starting {
            self
        } else if self.next_id == u64::MAX {
            self.failed(FailureCause::IdsExhausted)
        } else {
            SessionView {
                state: SessionState::Handshaking,
                handshake_id: Some(self.next_id),
                next_id: (self.next_id + 1) as u64,
                ..self
            }
        }
    }

    /// The identifier of the initialization request to send once the child
    /// runs, if one is to be sent.
    pub open spec fn spawn_request(self) -> Option<u64> {
        if self.state == SessionState::Starting && self.next_id < u64::MAX {
            Some(self.next_id)
        } else {
            None
        }
    }

    /// After the host reports that the child could not be started.
    pub open spec fn after_spawn_failure(self) -> SessionView {
        if self.state == SessionState::Starting {
            self.failed(FailureCause::Spawn)
        } else {
            self
        }
    }

    /// After the child's tools have been read from its handshake reply.
    pub open spec fn after_handshake(self, advertised: Seq<ToolDescriptor>) -> SessionView {
        if self.state == SessionState::Handshaking {
            SessionView {
                state: SessionState::Ready,
                handshake_id: None,
                tools: first_of_each(advertised),
                ..self
            }
        } else {
            self
        }
    }

    /// After the time allowed for the handshake ran out.
    pub open spec fn after_handshake_timeout(self) -> SessionView {
        if self.state == SessionState::Handshaking {
            self.failed(FailureCause::HandshakeTimeout)
        } else {
            self
        }
    }

    /// The identifier under which a call of `tool` is sent, or why it is not.
    pub open spec fn call_result(self, tool: Seq<char>) -> Result<u64, CallError> {
        if self.state != SessionState::Ready {
            Err(CallError::NotAccepting(self.state))
        } else if !has_name(self.tools, tool) {
            Err(CallError::UnknownTool)
        } else if self.next_id == u64::MAX {
            Err(CallError::IdsExhausted)
        } else {
            Ok(self.next_id)
        }
    }

    /// After a call of `tool` was asked for.
    pub open spec fn after_call(self, tool: Seq<char>, deadline: Option<u64>) -> SessionView {
        if self.call_result(tool).is_ok() {
            SessionView {
                pending: self.pending.insert(self.next_id, deadline),
                next_id: (self.next_id + 1) as u64,
                ..self
            }
        } else {
            self
        }
    }

    /// What is done with `msg` on arrival.
    pub open spec fn dispatched(self, msg: Message) -> Dispatch {
        match msg {
            Message::Response { id, result } => {
                if self.pending.dom().contains(id) {
                    Dispatch::Resolved { id, result }
                } else if self.handshake_id == Some(id) {
                    Dispatch::HandshakeReply { result }
                } else {
                    Dispatch::Dropped
                }
            },
            Message::Error { id, code, message } => {
                if self.pending.dom().contains(id) {
                    Dispatch::ToolFailed { id, code, message }
                } else if self.handshake_id == Some(id) {
                    Dispatch::HandshakeRefused { code, message }
                } else {
                    Dispatch::Dropped
                }
            },
            Message::Notification { method, params } => Dispatch::Notify { method, params },
            Message::Request { .. } => Dispatch::Dropped,
        }
    }

    /// After `msg` arrived.
    pub open spec fn after_dispatch(self, msg: Message) -> SessionView {
        match msg {
            Message::Response { id, .. } => {
                if self.pending.dom().contains(id) {
                    SessionView { pending: self.pending.remove(id), ..self }
                } else {
                    self
                }
            },
            Message::Error { id, .. } => {
                if self.pending.dom().contains(id) {
                    SessionView { pending: self.pending.remove(id), ..self }
                } else if self.handshake_id == Some(id) {
                    self.failed(FailureCause::HandshakeRefused)
                } else {
                    self
                }
            },
            _ => self,
        }
    }

    /// After the caller of `id` gave the call up. A call that is not
    /// outstanding cannot be given up, and nothing changes.
    pub open spec fn after_cancel(self, id: u64) -> SessionView {
        SessionView { pending: self.pending.remove(id), ..self }
    }

    /// Whether the call `id` is outstanding and its deadline has passed.
    pub open spec fn overdue(self, id: u64, now: u64) -> bool {
        self.pending.dom().contains(id) && is_due(self.pending[id], now)
    }

    /// After the host found at `now` that the call `id` may have timed out.
    pub open spec fn after_time_out(self, id: u64, now: u64) -> SessionView {
        if self.overdue(id, now) {
            self.after_cancel(id)
        } else {
            self
        }
    }

    /// After the host swept the books at `now`: the calls whose deadline
    /// has passed are given up.
    pub open spec fn after_expiry(self, now: u64) -> SessionView {
        SessionView { pending: not_yet_due(self.pending, now), ..self }
    }

    /// After a frame arrived that could not be decoded.
    pub open spec fn after_malformed_frame(self) -> SessionView {
        if self.mode == FramingMode::Strict && !self.terminal() {
            self.failed(FailureCause::MalformedFrame)
        } else {
            self
        }
    }

    /// Whether `verdict` is what becomes of the malformed frame `raw` in this
    /// session.
    pub open spec fn passes_verdict(self, raw: Vec<u8>, verdict: FrameVerdict) -> bool {
        match verdict {
            FrameVerdict::Skipped { error } => {
                &&& error == TransportError::MalformedFrame(raw)
                &&& (self.mode == FramingMode::Lenient || self.terminal())
            },
            FrameVerdict::Aborted { error, failed_calls } => {
                &&& error == TransportError::MalformedFrame(raw)
                &&& self.mode == FramingMode::Strict
                &&& !self.terminal()
                &&& lists_exactly(failed_calls@, self.pending)
            },
        }
    }

    /// Whether an exit of the child now is a crash.
    pub open spec fn child_needed(self) -> bool {
        self.state == SessionState::Ready || self.state == SessionState::Handshaking
    }

    /// After the child exited.
    pub open spec fn after_exit(self) -> SessionView {
        if self.child_needed() {
            match self.policy.verdict(self.restarts) {
                Decision::Restart { .. } => SessionView {
                    restarts: (self.restarts + 1) as u32,
                    ..self.moved_to(SessionState::Starting).without_calls()
                },
                Decision::Fail => self.failed(FailureCause::ChildCrashed),
            }
        } else if self.state == SessionState::Draining {
            self.moved_to(SessionState::Closed).without_calls()
        } else {
            self
        }
    }

    /// After the host asked for shutdown.
    pub open spec fn after_shutdown(self) -> SessionView {
        if self.terminal() {
            self
        } else {
            self.moved_to(SessionState::Draining)
        }
    }

    /// After the drain ended, by the last answer or by the grace period.
    pub open spec fn after_close(self) -> SessionView {
        if self.state == SessionState::Draining {
            self.moved_to(SessionState::Closed).without_calls()
        } else {
            self
        }
    }
}

/// One session: its state, its tools and its outstanding calls.
#[derive(Debug)]
pub struct Session {
    name: String,
    command: Command,
    handshake_method: String,
    state: SessionState,
    failure: Option<FailureCause>,
    mode: FramingMode,
    policy: SupervisorPolicy,
    registry: ToolRegistry,
    calls: Vec<PendingRequest>,
    next_id: u64,
    handshake_id: Option<u64>,
    restarts: u32,
}

impl View for Session {
    type V = SessionView;

    closed spec fn view(&self) -> SessionView {
        SessionView {
            name: self.name@,
            command: self.command@,
            handshake_method: self.handshake_method@,
            state: self.state,
            failure: self.failure,
            mode: self.mode,
            policy: self.policy,
            tools: self.registry@,
            pending: pending_map(self.calls@),
            next_id: self.next_id,
            handshake_id: self.handshake_id,
            restarts: self.restarts,
        }
    }
}

impl Session {
    /// Whether the session's books are in order.
    pub closed spec fn wf(&self) -> bool {
        self@.wf() && distinct_ids(self.calls@)
    }

    /// A session in order has a value in order.
    pub proof fn lemma_wf_view(&self)
        requires
            self.wf(),
        ensures
            self@.wf(),
    {
    }

    /// A session for a child that `command` is about to start. The
    /// handshake will ask the child for `handshake_method`.
    pub fn new(
        name: String,
        command: Command,
        handshake_method: String,
        mode: FramingMode,
        policy: SupervisorPolicy,
    ) -> (res: Session)
        ensures
            res.wf(),
            res@ == (SessionView {
                name: name@,
                command: command@,
                handshake_method: handshake_method@,
                state: SessionState::Starting,
                failure: None,
                mode,
                policy,
                tools: Seq::empty(),
                pending: Map::empty(),
                next_id: 0,
                handshake_id: None,
                restarts: 0,
            }),
    {
        let res = Session {
            name,
            command,
            handshake_method,
            state: SessionState::Starting,
            failure: None,
            mode,
            policy,
            registry: ToolRegistry::new(),
            calls: Vec::new(),
            next_id: 0,
            handshake_id: None,
            restarts: 0,
        };
        assert(res@.pending =~= Map::empty());
        res
    }

    /// The state of the session.
    pub fn state(&self) -> (res: SessionState)
        ensures
            res == self@.state,
    {
        self.state
    }

    /// Why the session failed, if it has.
    pub fn failure(&self) -> (res: Option<FailureCause>)
        ensures
            res == self@.failure,
    {
        self.failure
    }

    /// The tools that the child advertised, in the order received.
    pub fn list_tools(&self) -> (res: &Vec<ToolDescriptor>)
        ensures
            res@ == self@.tools,
    {
        self.registry.list()
    }

    /// The tools of the session.
    pub fn registry(&self) -> (res: &ToolRegistry)
        ensures
            res@ == self@.tools,
    {
        &self.registry
    }

    /// The command that starts the child.
    pub fn command(&self) -> (res: &Command)
        ensures
            res@ == self@.command,
    {
        &self.command
    }

    /// The name that the host gave the session.
    pub fn name(&self) -> (res: &String)
        ensures
            res@ == self@.name,
    {
        &self.name
    }

    /// Whether no call is outstanding.
    pub fn is_idle(&self) -> (res: bool)
        requires
            self.wf(),
        ensures
            res == (self@.pending == Map::<u64, Option<u64>>::empty()),
    {
        proof {
            if self.calls@.len() > 0 {
                lemma_lookup(self.calls@, 0);
            } else {
                assert(self@.pending =~= Map::empty());
            }
        }
        self.calls.len() == 0
    }

    /// Whether the call `id` is outstanding.
    pub fn is_pending(&self, id: u64) -> (res: bool)
        ensures
            res == self@.pending.dom().contains(id),
    {
        find_call(&self.calls, id).is_some()
    }

    /// How often the child has been started again.
    pub fn restarts(&self) -> (res: u32)
        ensures
            res == self@.restarts,
    {
        self.restarts
    }
}

impl Session {
    /// The host reports that the child runs. The session starts the
    /// handshake: the result is the initialization request to send. In any
    /// state but `Starting` nothing happens.
    pub fn child_spawned(&mut self) -> (res: Option<Message>)
        requires
            old(self).wf(),
        ensures
            final(self).wf(),
            final(self)@ == old(self)@.after_spawn(),
            match res {
                Some(Message::Request { id, method, params }) => {
                    &&& old(self)@.spawn_request() == Some(id)
                    &&& method@ == old(self)@.handshake_method
                    &&& params@ == Seq::<u8>::empty()
                },
                Some(_) => false,
                None => old(self)@.spawn_request().is_none(),
            },
    {
        if self.state != SessionState::Starting {
            return None;
        }
        if self.next_id == u64::MAX {
            self.state = SessionState::Failed;
            self.failure = Some(FailureCause::IdsExhausted);
            return None;
        }
        let id: u64 = self.next_id;
        self.state = SessionState::Handshaking;
        self.handshake_id = Some(id);
        self.next_id = id + 1;
        Some(Message::Request { id, method: self.handshake_method.clone(), params: Vec::new() })
    }

    /// The host reports that the child could not be started: the session
    /// has failed. Nothing is tried again.
    pub fn spawn_failed(&mut self)
        requires
            old(self).wf(),
        ensures
            final(self).wf(),
            final(self)@ == old(self)@.after_spawn_failure(),
    {
        if self.state == SessionState::Starting {
            self.state = SessionState::Failed;
            self.failure = Some(FailureCause::Spawn);
        }
    }

    /// Completes the handshake with the tools that the child advertised.
    /// The result says whether a handshake was under way.
    pub fn complete_handshake(&mut self, advertised: &Vec<ToolDescriptor>) -> (res: bool)
        requires
            old(self).wf(),
        ensures
            final(self).wf(),
            final(self)@ == old(self)@.after_handshake(advertised@),
            res == (old(self)@.state == SessionState::Handshaking),
    {
        if self.state != SessionState::Handshaking {
            return false;
        }
        self.registry = ToolRegistry::from_advertised(advertised);
        self.state = SessionState::Ready;
        self.handshake_id = None;
        true
    }

    /// The time allowed for the handshake ran out: the session has failed.
    /// The result says whether a handshake was under way.
    pub fn handshake_timed_out(&mut self) -> (res: bool)
        requires
            old(self).wf(),
        ensures
            final(self).wf(),
            final(self)@ == old(self)@.after_handshake_timeout(),
            res == (old(self)@.state == SessionState::Handshaking),
    {
        if self.state != SessionState::Handshaking {
            return false;
        }
        self.state = SessionState::Failed;
        self.failure = Some(FailureCause::HandshakeTimeout);
        self.handshake_id = None;
        true
    }

    /// Asks for a call of `tool`. On success the call is recorded as
    /// outstanding and the result is the request to send. A call of a tool
    /// that the child did not advertise fails here, and nothing is to be
    /// sent.
    pub fn call(&mut self, tool: &str, params: Vec<u8>, deadline: Option<u64>) -> (res: Result<
        Message,
        CallError,
    >)
        requires
            old(self).wf(),
        ensures
            final(self).wf(),
            final(self)@ == old(self)@.after_call(tool@, deadline),
            match res {
                Ok(Message::Request { id, method, params: sent }) => {
                    &&& old(self)@.call_result(tool@) == Ok::<u64, CallError>(id)
                    &&& method@ == tool@
                    &&& sent == params
                },
                Ok(_) => false,
                Err(e) => old(self)@.call_result(tool@) == Err::<u64, CallError>(e),
            },
    {
        if self.state != SessionState::Ready {
            return Err(CallError::NotAccepting(self.state));
        }
        if !self.registry.contains(tool) {
            return Err(CallError::UnknownTool);
        }
        if self.next_id == u64::MAX {
            return Err(CallError::IdsExhausted);
        }
        let id: u64 = self.next_id;
        proof {
            if has_id(self.calls@, id) {
                assert(self@.pending.dom().contains(id));
            }
            lemma_push(self.calls@, PendingRequest { id, deadline });
        }
        self.calls.push(PendingRequest { id, deadline });
        self.next_id = id + 1;
        Ok(Message::Request { id, method: tool.to_owned(), params })
    }

    /// Takes the call `id` off the books, if it is there.
    fn settle(&mut self, id: u64) -> (res: bool)
        requires
            old(self).wf(),
        ensures
            final(self).wf(),
            res == old(self)@.pending.dom().contains(id),
            final(self)@ == old(self)@.after_cancel(id),
            !res ==> final(self)@ == old(self)@,
    {
        match find_call(&self.calls, id) {
            Some(at) => {
                proof {
                    lemma_lookup(self.calls@, at as int);
                    lemma_remove(self.calls@, at as int);
                }
                self.calls.remove(at);
                true
            },
            None => {
                assert(self@.pending.remove(id) =~= self@.pending);
                false
            },
        }
    }

    /// Handles a message that arrived from the child. An answer goes to the
    /// call that carries its identifier, which is then no longer
    /// outstanding; an answer to nothing outstanding is dropped.
    pub fn dispatch(&mut self, msg: Message) -> (res: Dispatch)
        requires
            old(self).wf(),
        ensures
            final(self).wf(),
            final(self)@ == old(self)@.after_dispatch(msg),
            res == old(self)@.dispatched(msg),
    {
        match msg {
            Message::Response { id, result } => {
                if self.settle(id) {
                    Dispatch::Resolved { id, result }
                } else if self.handshake_id == Some(id) {
                    Dispatch::HandshakeReply { result }
                } else {
                    Dispatch::Dropped
                }
            },
            Message::Error { id, code, message } => {
                if self.settle(id) {
                    Dispatch::ToolFailed { id, code, message }
                } else if self.handshake_id == Some(id) {
                    self.state = SessionState::Failed;
                    self.failure = Some(FailureCause::HandshakeRefused);
                    self.handshake_id = None;
                    Dispatch::HandshakeRefused { code, message }
                } else {
                    Dispatch::Dropped
                }
            },
            Message::Notification { method, params } => Dispatch::Notify { method, params },
            Message::Request { .. } => Dispatch::Dropped,
        }
    }

    /// The caller of `id` gives the call up. The result says whether the
    /// call was outstanding. An answer that still comes is dropped.
    pub fn cancel(&mut self, id: u64) -> (res: bool)
        requires
            old(self).wf(),
        ensures
            final(self).wf(),
            final(self)@ == old(self)@.after_cancel(id),
            res == old(self)@.pending.dom().contains(id),
    {
        self.settle(id)
    }

    /// The host's clock shows `now`: the call `id` is given up if it is
    /// outstanding and its deadline has passed. The result says whether it
    /// timed out.
    pub fn time_out(&mut self, id: u64, now: u64) -> (res: bool)
        requires
            old(self).wf(),
        ensures
            final(self).wf(),
            final(self)@ == old(self)@.after_time_out(id, now),
            res == old(self)@.overdue(id, now),
    {
        match find_call(&self.calls, id) {
            Some(at) => {
                proof {
                    lemma_lookup(self.calls@, at as int);
                }
                match self.calls[at].deadline {
                    Some(limit) => {
                        if limit <= now {
                            self.settle(id)
                        } else {
                            false
                        }
                    },
                    None => false,
                }
            },
            None => false,
        }
    }

    /// The host's clock shows `now`: every outstanding call whose deadline
    /// has passed is given up. The result lists them; each fails as timed
    /// out, and the session goes on.
    pub fn expire(&mut self, now: u64) -> (timed_out: Vec<u64>)
        requires
            old(self).wf(),
        ensures
            final(self).wf(),
            final(self)@ == old(self)@.after_expiry(now),
            lists_overdue(timed_out@, old(self)@.pending, now),
    {
        let timed_out = take_due(&mut self.calls, now);
        proof {
            if self.state != SessionState::Ready && self.state != SessionState::Draining {
                assert(self@.pending =~= Map::<u64, Option<u64>>::empty());
            }
        }
        timed_out
    }

    /// A frame arrived that could not be decoded. A lenient session skips
    /// it and goes on; a strict session fails, and every outstanding call
    /// with it.
    pub fn malformed_frame(&mut self, raw: Vec<u8>) -> (res: FrameVerdict)
        requires
            old(self).wf(),
        ensures
            final(self).wf(),
            final(self)@ == old(self)@.after_malformed_frame(),
            old(self)@.mode == FramingMode::Lenient ==> final(self)@ == old(self)@,
            old(self)@.mode == FramingMode::Strict && !old(self)@.terminal() ==> final(self)@.state
                == SessionState::Failed && final(self)@.failure == Some(
                FailureCause::MalformedFrame,
            ),
            old(self)@.passes_verdict(raw, res),
    {
        let ended = self.state == SessionState::Closed || self.state == SessionState::Failed;
        if self.mode == FramingMode::Lenient || ended {
            return FrameVerdict::Skipped { error: TransportError::MalformedFrame(raw) };
        }
        let failed_calls = take_ids(&mut self.calls);
        self.state = SessionState::Failed;
        self.failure = Some(FailureCause::MalformedFrame);
        self.handshake_id = None;
        assert(self@.pending =~= Map::empty());
        FrameVerdict::Aborted { error: TransportError::MalformedFrame(raw), failed_calls }
    }

    /// A frame arrived. Where it holds a message, the message is handled as
    /// [`Session::dispatch`] handles it; where it is malformed, the session
    /// skips it or fails over it as [`Session::malformed_frame`] says.
    pub fn receive(&mut self, frame: Vec<u8>) -> (res: Received)
        requires
            old(self).wf(),
        ensures
            final(self).wf(),
            match res {
                Received::Message(outcome) => exists|msg: Message|
                    {
                        &&& #[trigger] frame_holds(frame@, msg)
                        &&& outcome == old(self)@.dispatched(msg)
                        &&& final(self)@ == old(self)@.after_dispatch(msg)
                    },
                Received::Malformed(verdict) => {
                    &&& frame_is_malformed(frame@)
                    &&& final(self)@ == old(self)@.after_malformed_frame()
                    &&& old(self)@.passes_verdict(frame, verdict)
                },
            },
    {
        let read = match decode_envelope(frame.as_slice()) {
            Some(env) => Message::from_envelope(env),
            None => None,
        };
        match read {
            Some(msg) => {
                let outcome = self.dispatch(msg);
                assert(frame_holds(frame@, msg));
                Received::Message(outcome)
            },
            None => Received::Malformed(self.malformed_frame(frame)),
        }
    }

    /// The child exited. While it was needed this is a crash: every
    /// outstanding call fails, and the supervisor decides whether the child
    /// is started again or the session fails. While draining it is the end
    /// that was asked for.
    pub fn child_exited(&mut self, status: ExitStatus) -> (res: ExitOutcome)
        requires
            old(self).wf(),
        ensures
            final(self).wf(),
            final(self)@ == old(self)@.after_exit(),
            match res {
                ExitOutcome::Crashed { failed_calls, decision } => {
                    &&& old(self)@.child_needed()
                    &&& decision == old(self)@.policy.verdict(old(self)@.restarts)
                    &&& lists_exactly(failed_calls@, old(self)@.pending)
                },
                ExitOutcome::Closed { unresolved } => {
                    &&& old(self)@.state == SessionState::Draining
                    &&& lists_exactly(unresolved@, old(self)@.pending)
                },
                ExitOutcome::Ignored => {
                    &&& !old(self)@.child_needed()
                    &&& old(self)@.state != SessionState::Draining
                },
            },
    {
        if self.state == SessionState::Ready || self.state == SessionState::Handshaking {
            let decision = self.policy.decide(status, self.restarts);
            let failed_calls = take_ids(&mut self.calls);
            self.handshake_id = None;
            match decision {
                Decision::Restart { .. } => {
                    self.state = SessionState::Starting;
                    self.restarts = self.restarts + 1;
                },
                Decision::Fail => {
                    self.state = SessionState::Failed;
                    self.failure = Some(FailureCause::ChildCrashed);
                },
            }
            assert(self@.pending =~= Map::empty());
            ExitOutcome::Crashed { failed_calls, decision }
        } else if self.state == SessionState::Draining {
            let unresolved = take_ids(&mut self.calls);
            self.state = SessionState::Closed;
            assert(self@.pending =~= Map::empty());
            ExitOutcome::Closed { unresolved }
        } else {
            ExitOutcome::Ignored
        }
    }

    /// The host asks for shutdown: the session takes no more calls and
    /// drains. The result says whether the session was still alive.
    pub fn shutdown(&mut self) -> (res: bool)
        requires
            old(self).wf(),
        ensures
            final(self).wf(),
            final(self)@ == old(self)@.after_shutdown(),
            res == !old(self)@.terminal(),
    {
        if self.state == SessionState::Closed || self.state == SessionState::Failed {
            return false;
        }
        proof {
            if self.state != SessionState::Ready && self.state != SessionState::Draining {
                assert(self@.pending == Map::<u64, Option<u64>>::empty());
            }
        }
        self.state = SessionState::Draining;
        self.handshake_id = None;
        true
    }

    /// Whether a draining session has no call left to wait for.
    pub fn is_drained(&self) -> (res: bool)
        requires
            self.wf(),
        ensures
            res == (self@.state == SessionState::Draining && self@.pending == Map::<
                u64,
                Option<u64>,
            >::empty()),
    {
        let idle = self.is_idle();
        self.state == SessionState::Draining && idle
    }

    /// Ends the drain, when the last call is answered or the grace period
    /// is over: the session is closed. The result lists the calls that were
    /// still outstanding; they end with the session.
    pub fn close(&mut self) -> (unresolved: Vec<u64>)
        requires
            old(self).wf(),
        ensures
            final(self).wf(),
            final(self)@ == old(self)@.after_close(),
            old(self)@.state == SessionState::Draining ==> lists_exactly(
                unresolved@,
                old(self)@.pending,
            ),
            old(self)@.state != SessionState::Draining ==> unresolved@.len() == 0,
    {
        if self.state != SessionState::Draining {
            return Vec::new();
        }
        let unresolved = take_ids(&mut self.calls);
        self.state = SessionState::Closed;
        assert(self@.pending =~= Map::empty());
        unresolved
    }
}

} // verus!
