use vstd::prelude::*;

use crossbeam_channel::Receiver;
use crossbeam_channel::Sender;

use crate::error::ProtocolError;
use crate::json::JsonV;
use crate::json::JsonValue;
use crate::json::jv;
use crate::json::jv_obj;
use crate::json::lemma_jv_obj;
use crate::msg::Message;
use crate::msg::MessageV;
use crate::msg::Request;
use crate::msg::RequestId;
use crate::msg::Response;
use crate::msg::ResponseV;

verus! {

#[verifier::external_type_specification]
#[verifier::external_body]
#[verifier::reject_recursive_types(T)]
pub struct ExSender<T>(Sender<T>);

#[verifier::external_type_specification]
#[verifier::external_body]
#[verifier::reject_recursive_types(T)]
pub struct ExReceiver<T>(Receiver<T>);

/// Names the wiring that creating a channel establishes: the sender delivers
/// to exactly this receiver.
pub uninterp spec fn wired(s: Sender<Message>, r: Receiver<Message>) -> bool;

/// Relies on crossbeam_channel::unbounded: a connected sender/receiver pair
/// that never blocks a send.
#[verifier::external_body]
fn channel_unbounded() -> (p: (Sender<Message>, Receiver<Message>))
    ensures
        wired(p.0, p.1),
{
    crossbeam_channel::unbounded()
}

/// Relies on crossbeam_channel::Sender::send: delivers the message to the
/// paired receiver, or hands it back unchanged when the receiving side is
/// gone.
#[verifier::external_body]
fn channel_send(s: &Sender<Message>, m: Message) -> (r: Result<(), Message>)
    ensures
        r matches Err(back) ==> back == m,
{
    match s.send(m) {
        Ok(()) => Ok(()),
        Err(e) => Err(e.0),
    }
}

/// Relies on crossbeam_channel::Receiver::recv: blocks until a message
/// arrives; yields nothing only when the channel is empty and every sender is
/// gone.
#[verifier::external_body]
fn channel_recv(r: &Receiver<Message>) -> (res: Option<Message>) {
    match r.recv() {
        Ok(m) => Some(m),
        Err(_) => None,
    }
}

/// Relies on crossbeam_channel::Receiver::recv_timeout: like `recv`, but
/// gives up after the given number of seconds instead of blocking forever.
#[verifier::external_body]
fn channel_recv_timeout(r: &Receiver<Message>, secs: u64) -> (res: Option<Message>) {
    match r.recv_timeout(std::time::Duration::from_secs(secs)) {
        Ok(m) => Some(m),
        Err(_) => None,
    }
}

// ============================================================================
// The connection: a pair of message channels and the lifecycle handshakes.
// ============================================================================

/// A connection is a pair of channels of messages: one to send on, one to
/// receive from. The embedding transport owns the byte stream and its two
/// I/O threads; they bridge the stream to these channels.
pub struct Connection {
    pub sender: Sender<Message>,
    pub receiver: Receiver<Message>,
}

// ============================================================================
// The handshake decisions, as verified functions from one inbound message to
// the next step. The channel calls around them can promise nothing about
// which message arrives; these functions pin down what happens for every
// message that does.
// ============================================================================

/// The first inbound message must be an `initialize` request: anything else
/// is a protocol violation and yields an error, never a capabilities
/// response.
pub fn check_initialize_request(m: Message) -> (r: Result<(RequestId, JsonValue), ProtocolError>)
    ensures
        (r is Ok) <==> (m@ matches MessageV::Request(req) && req.method == "initialize"@),
        r matches Ok(p) ==> (m@ matches MessageV::Request(req) && p.0@ == req.id && jv(p.1)
            == req.params),
        (m@ matches MessageV::Request(req) && req.method != "initialize"@) ==> (r matches Err(e)
            && e.0@ == "expected initialize request, got another request"@),
        m@ matches MessageV::Response(_) ==> (r matches Err(e) && e.0@
            == "expected initialize request, got a response"@),
        m@ matches MessageV::Notification(_) ==> (r matches Err(e) && e.0@
            == "expected initialize request, got a notification"@),
{
    match m {
        Message::Request(req) => {
            if req.is_initialize() {
                let Request { id, method: _, params } = req;
                Ok((id, params))
            } else {
                Err(
                    ProtocolError(
                        String::from_str("expected initialize request, got another request"),
                    ),
                )
            }
        },
        Message::Response(_) => Err(
            ProtocolError(String::from_str("expected initialize request, got a response")),
        ),
        Message::Notification(_) => Err(
            ProtocolError(String::from_str("expected initialize request, got a notification")),
        ),
    }
}

/// After the capabilities response, the next inbound message must be the
/// `initialized` notification.
pub fn check_initialized_notification(m: &Message) -> (r: Result<(), ProtocolError>)
    ensures
        (r is Ok) <==> (m@ matches MessageV::Notification(n) && n.method == "initialized"@),
        r matches Err(e) ==> e.0@ == "expected initialized notification"@,
{
    match m {
        Message::Notification(n) => {
            if n.is_initialized() {
                Ok(())
            } else {
                Err(ProtocolError(String::from_str("expected initialized notification")))
            }
        },
        _ => Err(ProtocolError(String::from_str("expected initialized notification"))),
    }
}

/// After the shutdown response, the next inbound message must be the `exit`
/// notification.
pub fn check_exit_notification(m: &Message) -> (r: Result<(), ProtocolError>)
    ensures
        (r is Ok) <==> (m@ matches MessageV::Notification(n) && n.method == "exit"@),
        (m@ matches MessageV::Notification(n) && n.method != "exit"@) ==> (r matches Err(e)
            && e.0@ == "unexpected message during shutdown: a notification"@),
        !(m@ matches MessageV::Notification(_)) ==> (r matches Err(e) && e.0@
            == "unexpected message during shutdown"@),
{
    match m {
        Message::Notification(n) => {
            if n.is_exit() {
                Ok(())
            } else {
                Err(
                    ProtocolError(
                        String::from_str("unexpected message during shutdown: a notification"),
                    ),
                )
            }
        },
        _ => Err(ProtocolError(String::from_str("unexpected message during shutdown"))),
    }
}

/// The response that answers the `initialize` request: the server's
/// capabilities wrapped in a one-field object.
pub fn capabilities_response(id: RequestId, server_capabilities: JsonValue) -> (r: Response)
    ensures
        r@ == (ResponseV {
            id: id@,
            result: Some(
                JsonV::Obj(seq![("capabilities"@, jv(server_capabilities))]),
            ),
            error: None,
        }),
{
    let ghost caps = jv(server_capabilities);
    let mut fields: Vec<(String, JsonValue)> = Vec::new();
    fields.push((String::from_str("capabilities"), server_capabilities));
    proof {
        lemma_jv_obj(fields@, 0);
        assert(jv_obj(fields@, 0) =~= seq![("capabilities"@, caps)]);
    }
    Response::new_ok(id, JsonValue::Object(fields))
}

impl Connection {
    /// Creates a pair of connections wired directly to each other, with no
    /// thread involved: the first's sender delivers to the second's receiver
    /// and the second's sender to the first's receiver.
    pub fn memory() -> (r: (Connection, Connection))
        ensures
            wired(r.0.sender, r.1.receiver),
            wired(r.1.sender, r.0.receiver),
    {
        let (s1, r1) = channel_unbounded();
        let (s2, r2) = channel_unbounded();
        (Connection { sender: s1, receiver: r2 }, Connection { sender: s2, receiver: r1 })
    }

    /// Runs the opening handshake: waits for the `initialize` request,
    /// answers it with the given capabilities, waits for the `initialized`
    /// notification, and hands the initialize params to the application.
    /// Any other first message aborts with a protocol error and no
    /// capabilities response is sent. A failure always carries one of the
    /// handshake's fixed descriptions of what was expected.
    pub fn initialize(&self, server_capabilities: JsonValue) -> (r: Result<
        JsonValue,
        ProtocolError,
    >)
        ensures
            r matches Err(e) ==> (e.0@ == "connection closed before the initialize request"@
                || e.0@ == "expected initialize request, got another request"@ || e.0@
                == "expected initialize request, got a response"@ || e.0@
                == "expected initialize request, got a notification"@ || e.0@
                == "connection closed while sending the capabilities"@ || e.0@
                == "connection closed before the initialized notification"@ || e.0@
                == "expected initialized notification"@),
    {
        let first = match channel_recv(&self.receiver) {
            Some(m) => m,
            None => {
                return Err(
                    ProtocolError(
                        String::from_str("connection closed before the initialize request"),
                    ),
                );
            },
        };
        let (id, params) = match check_initialize_request(first) {
            Ok(p) => p,
            Err(e) => {
                return Err(e);
            },
        };
        let resp = capabilities_response(id, server_capabilities);
        match channel_send(&self.sender, Message::Response(resp)) {
            Ok(()) => {},
            Err(_) => {
                return Err(
                    ProtocolError(
                        String::from_str("connection closed while sending the capabilities"),
                    ),
                );
            },
        }
        let second = match channel_recv(&self.receiver) {
            Some(m) => m,
            None => {
                return Err(
                    ProtocolError(
                        String::from_str("connection closed before the initialized notification"),
                    ),
                );
            },
        };
        match check_initialized_notification(&second) {
            Ok(()) => Ok(params),
            Err(e) => Err(e),
        }
    }

    /// If `req` asks for shutdown, answers it with a null result, waits the
    /// given number of seconds for the `exit` notification and reports
    /// `true`; any other request is reported `false` and left untouched.
    /// A missing or wrong follow-up message is a protocol error, never an
    /// endless wait.
    pub fn handle_shutdown_with_timeout(&self, req: &Request, timeout_secs: u64) -> (r: Result<
        bool,
        ProtocolError,
    >)
        ensures
            req.method@ != "shutdown"@ ==> r == Ok::<bool, ProtocolError>(false),
            req.method@ == "shutdown"@ ==> r != Ok::<bool, ProtocolError>(false),
            r == Ok::<bool, ProtocolError>(true) ==> req.method@ == "shutdown"@,
            r is Err ==> req.method@ == "shutdown"@,
            r matches Err(e) ==> (e.0@ == "timed out waiting for the exit notification"@ || e.0@
                == "unexpected message during shutdown: a notification"@ || e.0@
                == "unexpected message during shutdown"@),
    {
        if !req.is_shutdown() {
            return Ok(false);
        }
        let resp = Response::new_ok(req.id.clone(), JsonValue::Null);
        let _ = channel_send(&self.sender, Message::Response(resp));
        match channel_recv_timeout(&self.receiver, timeout_secs) {
            Some(m) => {
                match check_exit_notification(&m) {
                    Ok(()) => Ok(true),
                    Err(e) => Err(e),
                }
            },
            None => Err(
                ProtocolError(String::from_str("timed out waiting for the exit notification")),
            ),
        }
    }

    /// `handle_shutdown_with_timeout`, with the protocol's customary bound
    /// of thirty seconds.
    pub fn handle_shutdown(&self, req: &Request) -> (r: Result<bool, ProtocolError>)
        ensures
            req.method@ != "shutdown"@ ==> r == Ok::<bool, ProtocolError>(false),
            req.method@ == "shutdown"@ ==> r != Ok::<bool, ProtocolError>(false),
            r == Ok::<bool, ProtocolError>(true) ==> req.method@ == "shutdown"@,
            r is Err ==> req.method@ == "shutdown"@,
            r matches Err(e) ==> (e.0@ == "timed out waiting for the exit notification"@ || e.0@
                == "unexpected message during shutdown: a notification"@ || e.0@
                == "unexpected message during shutdown"@),
    {
        self.handle_shutdown_with_timeout(req, 30)
    }
}

/// Whether a descriptor's status flags include the non-blocking flag, for
/// transport diagnostics; the embedding transport reads both values with its
/// platform call.
pub fn is_non_blocking(status_flags: i32, non_blocking_flag: i32) -> (r: bool)
    ensures
        r == (status_flags & non_blocking_flag == non_blocking_flag),
{
    status_flags & non_blocking_flag == non_blocking_flag
}

} // verus!
