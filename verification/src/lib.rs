//! A scaffold for a language-server-style protocol: length-prefixed JSON
//! frames carrying requests, responses and notifications over a byte stream,
//! a pair of synchronous channels bridging the stream to the application, and
//! the initialize/initialized and shutdown/exit lifecycle handshakes.
//!
//! The crate handles framing, message classification and handshaking; the
//! embedding application owns the dispatch loop and the I/O threads.

pub mod codec;
pub mod connection;
pub mod error;
pub mod framing;
pub mod json;
pub mod msg;
pub mod parse;

pub use crate::connection::Connection;
pub use crate::connection::is_non_blocking;
pub use crate::error::LspServerError;
pub use crate::error::ProtocolError;
pub use crate::json::JsonValue;
pub use crate::msg::ErrorCode;
pub use crate::msg::Message;
pub use crate::msg::is_representable_msg;
pub use crate::msg::Notification;
pub use crate::msg::Request;
pub use crate::msg::RequestId;
pub use crate::msg::Response;
pub use crate::msg::ResponseError;
