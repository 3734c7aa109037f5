use vstd::prelude::*;

use crate::json::JsonV;
use crate::json::JsonValue;
use crate::json::jv;
use crate::json::lemma_jv_wf;
use crate::json::wf_json;

verus! {

broadcast use vstd::std_specs::vec::group_vec_axioms, vstd::seq::group_seq_axioms;

// ============================================================================
// The three wire message shapes and their correlation identifier.
// ============================================================================

/// Pairs a request with its eventual response: an integer or a string.
#[derive(Debug, PartialEq, Eq)]
pub enum RequestId {
    Int(i64),
    Str(String),
}

/// The model of a `RequestId`.
#[verifier::ext_equal]
pub enum RequestIdV {
    Int(int),
    Str(Seq<char>),
}

impl View for RequestId {
    type V = RequestIdV;

    open spec fn view(&self) -> RequestIdV {
        match *self {
            RequestId::Int(i) => RequestIdV::Int(i as int),
            RequestId::Str(s) => RequestIdV::Str(s@),
        }
    }
}

impl Clone for RequestId {
    fn clone(&self) -> (r: Self)
        ensures
            r == *self,
    {
        match self {
            RequestId::Int(i) => RequestId::Int(*i),
            RequestId::Str(s) => RequestId::Str(s.clone()),
        }
    }
}

/// Invokes an operation; answered by exactly one `Response` with the same id.
#[derive(Debug, PartialEq, Eq)]
pub struct Request {
    pub id: RequestId,
    pub method: String,
    pub params: JsonValue,
}

#[verifier::ext_equal]
pub struct RequestV {
    pub id: RequestIdV,
    pub method: Seq<char>,
    pub params: JsonV,
}

impl View for Request {
    type V = RequestV;

    open spec fn view(&self) -> RequestV {
        RequestV { id: self.id@, method: self.method@, params: jv(self.params) }
    }
}

/// An application-level failure carried inside a `Response`.
#[derive(Debug, PartialEq, Eq)]
pub struct ResponseError {
    pub code: i64,
    pub message: String,
    pub data: Option<JsonValue>,
}

#[verifier::ext_equal]
pub struct ResponseErrorV {
    pub code: int,
    pub message: Seq<char>,
    pub data: Option<JsonV>,
}

impl View for ResponseError {
    type V = ResponseErrorV;

    open spec fn view(&self) -> ResponseErrorV {
        ResponseErrorV {
            code: self.code as int,
            message: self.message@,
            data: match self.data {
                Some(d) => Some(jv(d)),
                None => None,
            },
        }
    }
}

/// Answers exactly one prior `Request`; carries a result or an error,
/// never both.
#[derive(Debug, PartialEq, Eq)]
pub struct Response {
    pub id: RequestId,
    pub result: Option<JsonValue>,
    pub error: Option<ResponseError>,
}

#[verifier::ext_equal]
pub struct ResponseV {
    pub id: RequestIdV,
    pub result: Option<JsonV>,
    pub error: Option<ResponseErrorV>,
}

impl View for Response {
    type V = ResponseV;

    open spec fn view(&self) -> ResponseV {
        ResponseV {
            id: self.id@,
            result: match self.result {
                Some(r) => Some(jv(r)),
                None => None,
            },
            error: match self.error {
                Some(e) => Some(e@),
                None => None,
            },
        }
    }
}

/// Fire-and-forget: no id, no reply.
#[derive(Debug, PartialEq, Eq)]
pub struct Notification {
    pub method: String,
    pub params: JsonValue,
}

#[verifier::ext_equal]
pub struct NotificationV {
    pub method: Seq<char>,
    pub params: JsonV,
}

impl View for Notification {
    type V = NotificationV;

    open spec fn view(&self) -> NotificationV {
        NotificationV { method: self.method@, params: jv(self.params) }
    }
}

/// The unit exchanged on every channel and in every wire frame.
#[derive(Debug, PartialEq, Eq)]
pub enum Message {
    Request(Request),
    Response(Response),
    Notification(Notification),
}

#[verifier::ext_equal]
pub enum MessageV {
    Request(RequestV),
    Response(ResponseV),
    Notification(NotificationV),
}

impl View for Message {
    type V = MessageV;

    open spec fn view(&self) -> MessageV {
        match self {
            Message::Request(r) => MessageV::Request(r@),
            Message::Response(r) => MessageV::Response(r@),
            Message::Notification(n) => MessageV::Notification(n@),
        }
    }
}

impl From<Request> for Message {
    fn from(r: Request) -> (m: Message) {
        Message::Request(r)
    }
}

impl vstd::std_specs::convert::FromSpecImpl<Request> for Message {
    open spec fn obeys_from_spec() -> bool {
        true
    }

    open spec fn from_spec(r: Request) -> Message {
        Message::Request(r)
    }
}

impl From<Response> for Message {
    fn from(r: Response) -> (m: Message) {
        Message::Response(r)
    }
}

impl vstd::std_specs::convert::FromSpecImpl<Response> for Message {
    open spec fn obeys_from_spec() -> bool {
        true
    }

    open spec fn from_spec(r: Response) -> Message {
        Message::Response(r)
    }
}

impl From<Notification> for Message {
    fn from(n: Notification) -> (m: Message) {
        Message::Notification(n)
    }
}

impl vstd::std_specs::convert::FromSpecImpl<Notification> for Message {
    open spec fn obeys_from_spec() -> bool {
        true
    }

    open spec fn from_spec(n: Notification) -> Message {
        Message::Notification(n)
    }
}

// ============================================================================
// Representable messages: what the codec can put on the wire and bring back.
// ============================================================================

pub open spec fn wf_id(id: RequestIdV) -> bool {
    match id {
        RequestIdV::Int(i) => i64::MIN <= i <= i64::MAX,
        RequestIdV::Str(_) => true,
    }
}

pub open spec fn wf_response_error(e: ResponseErrorV) -> bool {
    &&& i64::MIN <= e.code <= i64::MAX
    &&& match e.data {
        Some(d) => wf_json(d),
        None => true,
    }
}

/// A message the encoder can carry. A response holds a result or an error,
/// exactly one of the two.
pub open spec fn wf_msg(m: MessageV) -> bool {
    match m {
        MessageV::Request(r) => wf_id(r.id) && wf_json(r.params),
        MessageV::Response(r) => {
            &&& wf_id(r.id)
            &&& (r.result is Some <==> r.error is None)
            &&& match r.result {
                Some(v) => wf_json(v),
                None => true,
            }
            &&& match r.error {
                Some(e) => wf_response_error(e),
                None => true,
            }
        },
        MessageV::Notification(n) => wf_json(n.params),
    }
}

// ============================================================================
// The fixed protocol method names and error codes.
// ============================================================================

/// The numeric error codes the protocol reserves.
#[derive(Debug, PartialEq, Eq, Clone, Copy)]
pub enum ErrorCode {
    ParseError,
    InvalidRequest,
    MethodNotFound,
    InvalidParams,
    InternalError,
    ServerErrorStart,
    ServerErrorEnd,
    ServerNotInitialized,
    UnknownErrorCode,
    RequestCancelled,
    ContentModified,
}

impl ErrorCode {
    pub open spec fn spec_code(self) -> int {
        match self {
            ErrorCode::ParseError => -32700,
            ErrorCode::InvalidRequest => -32600,
            ErrorCode::MethodNotFound => -32601,
            ErrorCode::InvalidParams => -32602,
            ErrorCode::InternalError => -32603,
            ErrorCode::ServerErrorStart => -32099,
            ErrorCode::ServerErrorEnd => -32000,
            ErrorCode::ServerNotInitialized => -32002,
            ErrorCode::UnknownErrorCode => -32001,
            ErrorCode::RequestCancelled => -32800,
            ErrorCode::ContentModified => -32801,
        }
    }

    /// The numeric value of this code on the wire.
    pub fn code(self) -> (r: i64)
        ensures
            r == self.spec_code(),
    {
        match self {
            ErrorCode::ParseError => -32700,
            ErrorCode::InvalidRequest => -32600,
            ErrorCode::MethodNotFound => -32601,
            ErrorCode::InvalidParams => -32602,
            ErrorCode::InternalError => -32603,
            ErrorCode::ServerErrorStart => -32099,
            ErrorCode::ServerErrorEnd => -32000,
            ErrorCode::ServerNotInitialized => -32002,
            ErrorCode::UnknownErrorCode => -32001,
            ErrorCode::RequestCancelled => -32800,
            ErrorCode::ContentModified => -32801,
        }
    }
}

impl Request {
    pub fn new(id: RequestId, method: String, params: JsonValue) -> (r: Request)
        ensures
            r@ == (RequestV { id: id@, method: method@, params: jv(params) }),
    {
        Request { id, method, params }
    }

    /// Whether this request opens the handshake.
    pub fn is_initialize(&self) -> (r: bool)
        ensures
            r == (self.method@ == "initialize"@),
    {
        self.method == "initialize".to_owned()
    }

    /// Whether this request asks the server to stop serving.
    pub fn is_shutdown(&self) -> (r: bool)
        ensures
            r == (self.method@ == "shutdown"@),
    {
        self.method == "shutdown".to_owned()
    }

    /// Hands out the id and params when the method matches, and returns the
    /// request unchanged otherwise, so a dispatcher can try the next method.
    pub fn extract(self, method: &str) -> (r: Result<(RequestId, JsonValue), Request>)
        ensures
            self.method@ == method@ ==> (r matches Ok(p) && p.0 == self.id && p.1 == self.params),
            self.method@ != method@ ==> r == Err::<(RequestId, JsonValue), Request>(self),
    {
        if self.method == method.to_owned() {
            Ok((self.id, self.params))
        } else {
            Err(self)
        }
    }
}

impl Response {
    /// A successful response carrying `result`; a void result is a JSON null.
    pub fn new_ok(id: RequestId, result: JsonValue) -> (r: Response)
        ensures
            r@ == (ResponseV { id: id@, result: Some(jv(result)), error: None }),
    {
        Response { id, result: Some(result), error: None }
    }

    /// A failed response carrying an error code and description.
    pub fn new_err(id: RequestId, code: i64, message: String) -> (r: Response)
        ensures
            r@ == (ResponseV {
                id: id@,
                result: None,
                error: Some(
                    ResponseErrorV { code: code as int, message: message@, data: None },
                ),
            }),
    {
        Response { id, result: None, error: Some(ResponseError { code, message, data: None }) }
    }
}

impl Notification {
    pub fn new(method: String, params: JsonValue) -> (r: Notification)
        ensures
            r@ == (NotificationV { method: method@, params: jv(params) }),
    {
        Notification { method, params }
    }

    /// Whether this notification completes the handshake.
    pub fn is_initialized(&self) -> (r: bool)
        ensures
            r == (self.method@ == "initialized"@),
    {
        self.method == "initialized".to_owned()
    }

    /// Whether this notification ends the connection.
    pub fn is_exit(&self) -> (r: bool)
        ensures
            r == (self.method@ == "exit"@),
    {
        self.method == "exit".to_owned()
    }

    /// Whether this notification cancels an outstanding request.
    pub fn is_cancel(&self) -> (r: bool)
        ensures
            r == (self.method@ == "$/cancelRequest"@),
    {
        self.method == "$/cancelRequest".to_owned()
    }
}

/// Whether the encoder can carry `m`: a response must hold exactly one of
/// result and error; everything else is representable. Unverified callers
/// test this before framing a message.
pub fn is_representable_msg(m: &Message) -> (r: bool)
    ensures
        r == wf_msg(m@),
{
    match m {
        Message::Request(req) => {
            proof {
                lemma_jv_wf(req.params);
            }
            true
        },
        Message::Response(resp) => {
            proof {
                match &resp.result {
                    Some(v) => lemma_jv_wf(*v),
                    None => (),
                }
                match &resp.error {
                    Some(e) => match &e.data {
                        Some(d) => lemma_jv_wf(*d),
                        None => (),
                    },
                    None => (),
                }
            }
            match (&resp.result, &resp.error) {
                (Some(_), None) => true,
                (None, Some(_)) => true,
                _ => false,
            }
        },
        Message::Notification(n) => {
            proof {
                lemma_jv_wf(n.params);
            }
            true
        },
    }
}

} // verus!
