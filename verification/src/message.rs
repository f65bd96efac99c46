//! The messages that broker and child exchange, and what the broker makes of
//! one that arrives.

use vstd::prelude::*;

verus! {

/// One protocol message. Parameters and results are carried as the bytes in
/// which they travelled: their shape is a matter between host and tool.
#[derive(Debug)]
pub enum Message {
    /// Asks the receiver to run `method`; answered under the same `id`.
    Request { id: u64, method: String, params: Vec<u8> },
    /// The result of the request `id`.
    Response { id: u64, result: Vec<u8> },
    /// The failure of the request `id`.
    Error { id: u64, code: i64, message: String },
    /// News that no one asked for and no one answers.
    Notification { method: String, params: Vec<u8> },
}

/// What the broker does with a message that arrived.
#[derive(Debug)]
pub enum Dispatch {
    /// The call `id` is answered: its caller gets `result`.
    Resolved { id: u64, result: Vec<u8> },
    /// The child reported that the call `id` failed: its caller gets a tool
    /// error, and the session goes on.
    ToolFailed { id: u64, code: i64, message: String },
    /// The child answered the initialization request. Its result names the
    /// tools; once they are read the handshake can be completed.
    HandshakeReply { result: Vec<u8> },
    /// The child refused the initialization request: the session has failed.
    HandshakeRefused { code: i64, message: String },
    /// A notification, to be passed on to the host's observer.
    Notify { method: String, params: Vec<u8> },
    /// The message answers nothing that is outstanding, or asks something of
    /// the broker: it is dropped.
    Dropped,
}

/// The `error` member of a message on the wire.
#[derive(Debug)]
pub struct ErrorBody {
    pub code: i64,
    pub message: String,
}

/// The members of one message on the wire, each present or absent, as they
/// were read from a frame or are to be written into one.
#[derive(Debug)]
pub struct Envelope {
    pub id: Option<u64>,
    pub method: Option<String>,
    pub params: Option<Vec<u8>>,
    pub result: Option<Vec<u8>>,
    pub error: Option<ErrorBody>,
}

/// The mathematical value of an [`ErrorBody`].
pub struct ErrorView {
    pub code: i64,
    pub message: Seq<char>,
}

/// The mathematical value of an [`Envelope`].
pub struct EnvelopeView {
    pub id: Option<u64>,
    pub method: Option<Seq<char>>,
    pub params: Option<Seq<u8>>,
    pub result: Option<Seq<u8>>,
    pub error: Option<ErrorView>,
}

impl View for ErrorBody {
    type V = ErrorView;

    open spec fn view(&self) -> ErrorView {
        ErrorView { code: self.code, message: self.message@ }
    }
}

impl View for Envelope {
    type V = EnvelopeView;

    open spec fn view(&self) -> EnvelopeView {
        EnvelopeView {
            id: self.id,
            method: match self.method {
                Some(method) => Some(method@),
                None => None,
            },
            params: match self.params {
                Some(params) => Some(params@),
                None => None,
            },
            result: match self.result {
                Some(result) => Some(result@),
                None => None,
            },
            error: match self.error {
                Some(body) => Some(body@),
                None => None,
            },
        }
    }
}

/// The four kinds of message.
#[derive(Clone, Copy, Debug, PartialEq, Eq, Structural)]
pub enum MessageKind {
    Request,
    Response,
    Error,
    Notification,
}

/// The kind of message that an envelope holds, by the members present: a
/// method with an identifier is a request, a method without one a
/// notification; a result or an error under an identifier, with no other
/// member, is the answer to a request. Every other combination is no
/// message.
pub open spec fn envelope_kind(env: EnvelopeView) -> Option<MessageKind> {
    if env.method.is_some() {
        if env.result.is_some() || env.error.is_some() {
            None
        } else if env.id.is_some() {
            Some(MessageKind::Request)
        } else {
            Some(MessageKind::Notification)
        }
    } else if env.id.is_none() || env.params.is_some() {
        None
    } else if env.result.is_some() && env.error.is_none() {
        Some(MessageKind::Response)
    } else if env.error.is_some() && env.result.is_none() {
        Some(MessageKind::Error)
    } else {
        None
    }
}

/// The parameters that an envelope carries: none at all stands for none.
pub open spec fn envelope_params(env: EnvelopeView) -> Seq<u8> {
    match env.params {
        Some(bytes) => bytes,
        None => Seq::empty(),
    }
}

/// Whether `msg` is the message that `env` holds.
pub open spec fn reads_as(env: EnvelopeView, msg: Message) -> bool {
    match msg {
        Message::Request { id, method, params } => {
            &&& envelope_kind(env) == Some(MessageKind::Request)
            &&& env.id == Some(id)
            &&& env.method == Some(method@)
            &&& params@ == envelope_params(env)
        },
        Message::Response { id, result } => {
            &&& envelope_kind(env) == Some(MessageKind::Response)
            &&& env.id == Some(id)
            &&& env.result == Some(result@)
        },
        Message::Error { id, code, message } => {
            &&& envelope_kind(env) == Some(MessageKind::Error)
            &&& env.id == Some(id)
            &&& env.error == Some(ErrorView { code, message: message@ })
        },
        Message::Notification { method, params } => {
            &&& envelope_kind(env) == Some(MessageKind::Notification)
            &&& env.method == Some(method@)
            &&& params@ == envelope_params(env)
        },
    }
}

/// The envelope in which `msg` is written.
pub open spec fn envelope_of(msg: Message) -> Envelope {
    match msg {
        Message::Request { id, method, params } => Envelope {
            id: Some(id),
            method: Some(method),
            params: Some(params),
            result: None,
            error: None,
        },
        Message::Response { id, result } => Envelope {
            id: Some(id),
            method: None,
            params: None,
            result: Some(result),
            error: None,
        },
        Message::Error { id, code, message } => Envelope {
            id: Some(id),
            method: None,
            params: None,
            result: None,
            error: Some(ErrorBody { code, message }),
        },
        Message::Notification { method, params } => Envelope {
            id: None,
            method: Some(method),
            params: Some(params),
            result: None,
            error: None,
        },
    }
}

/// What is written is read back: the envelope of a message holds that
/// message.
pub proof fn lemma_envelope_round_trip(msg: Message)
    ensures
        reads_as(envelope_of(msg)@, msg),
{
}

impl Message {
    /// The kind of this message.
    pub fn kind(&self) -> (res: MessageKind)
        ensures
            Some(res) == envelope_kind(envelope_of(*self)@),
    {
        match self {
            Message::Request { .. } => MessageKind::Request,
            Message::Response { .. } => MessageKind::Response,
            Message::Error { .. } => MessageKind::Error,
            Message::Notification { .. } => MessageKind::Notification,
        }
    }

    /// The envelope in which this message is written.
    pub fn into_envelope(self) -> (res: Envelope)
        ensures
            res == envelope_of(self),
    {
        match self {
            Message::Request { id, method, params } => Envelope {
                id: Some(id),
                method: Some(method),
                params: Some(params),
                result: None,
                error: None,
            },
            Message::Response { id, result } => Envelope {
                id: Some(id),
                method: None,
                params: None,
                result: Some(result),
                error: None,
            },
            Message::Error { id, code, message } => Envelope {
                id: Some(id),
                method: None,
                params: None,
                result: None,
                error: Some(ErrorBody { code, message }),
            },
            Message::Notification { method, params } => Envelope {
                id: None,
                method: Some(method),
                params: Some(params),
                result: None,
                error: None,
            },
        }
    }

    /// The message that an envelope holds, if its members make one. Where
    /// they do not, the frame that it was read from is malformed.
    pub fn from_envelope(env: Envelope) -> (res: Option<Message>)
        ensures
            match res {
                Some(msg) => reads_as(env@, msg),
                None => envelope_kind(env@).is_none(),
            },
    {
        let Envelope { id, method, params, result, error } = env;
        match method {
            Some(method) => {
                if result.is_some() || error.is_some() {
                    return None;
                }
                let params = match params {
                    Some(bytes) => bytes,
                    None => Vec::new(),
                };
                match id {
                    Some(id) => Some(Message::Request { id, method, params }),
                    None => Some(Message::Notification { method, params }),
                }
            },
            None => {
                if params.is_some() {
                    return None;
                }
                match (id, result, error) {
                    (Some(id), Some(result), None) => Some(Message::Response { id, result }),
                    (Some(id), None, Some(body)) => Some(
                        Message::Error { id, code: body.code, message: body.message },
                    ),
                    _ => None,
                }
            },
        }
    }
}

} // verus!
