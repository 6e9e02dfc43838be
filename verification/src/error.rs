//! Error types shared by the frontend and the multiplexer.

use vstd::prelude::*;
use vstd::string::StringExecFns;

verus! {

/// Convenience type for reporting a value that differed from the expected one.
#[derive(Clone, Debug, PartialEq)]
pub struct Mismatch<T> {
    /// Expected value.
    pub expected: T,
    /// Actual value.
    pub got: T,
}

impl Mismatch<String> {
    /// Renders the mismatch as `Expected: <e>, Got: <g>`.
    pub fn message(&self) -> (r: String)
        ensures
            r@ == "Expected: "@ + self.expected@ + ", Got: "@ + self.got@,
    {
        let mut s = String::from_str("Expected: ");
        s.append(self.expected.as_str());
        s.append(", Got: ");
        s.append(self.got.as_str());
        s
    }
}

/// Mathematical model of a server error object.
pub struct ServerErrorV {
    /// Error code.
    pub code: i64,
    /// Short error message.
    pub message: Seq<char>,
    /// Optional structured payload.
    pub data: Option<crate::json::JsonV>,
}

/// Error reported by the server inside a response object:
/// `{"code": <i>, "message": <m>, "data"?: <v>}`.
#[derive(Debug)]
pub struct ServerError {
    /// Error code.
    pub code: i64,
    /// Short error message.
    pub message: String,
    /// Optional structured payload.
    pub data: Option<crate::json::JsonValue>,
}

impl View for ServerError {
    type V = ServerErrorV;

    open spec fn view(&self) -> ServerErrorV {
        ServerErrorV {
            code: self.code,
            message: self.message@,
            data: match self.data {
                Some(v) => Some(v@),
                None => None,
            },
        }
    }
}

/// Error kind surfaced by the client.
#[derive(Debug)]
pub enum Error {
    /// Networking error or error on the low-level protocol layer.
    TransportError(String),
    /// JSON-RPC request error: the server answered this call with an error object.
    Request(ServerError),
    /// Subscription error, carrying the subscribe and unsubscribe method names.
    Subscription(String, String),
    /// Frontend/backend channel error.
    Internal,
    /// Invalid response.
    InvalidResponse(Mismatch<String>),
    /// The background task has been terminated; the reason is carried along.
    RestartNeeded(String),
    /// Failed to parse the data that the server sent back to us.
    ParseError(String),
    /// Invalid subscription ID.
    InvalidSubscriptionId,
    /// Invalid request ID.
    InvalidRequestId,
    /// A request with the same request ID has already been registered.
    DuplicateRequestId,
    /// Method was already registered.
    MethodAlreadyRegistered(String),
    /// Subscribe and unsubscribe method names are the same.
    SubscriptionNameConflict(String),
    /// Websocket request timeout.
    WsRequestTimeout,
    /// Configured max number of request slots exceeded.
    MaxSlotsExceeded,
    /// Custom error.
    Custom(String),
}

/// The text that `Error::message` produces for a given error value.
pub open spec fn spec_error_message(e: Error) -> Seq<char> {
    match e {
        Error::TransportError(t) => "Networking or low-level protocol error: "@ + t@,
        Error::Request(se) => "JSON-RPC request error: "@ + se.message@,
        Error::Subscription(s, u) => "Subscription failed, subscribe_method: "@ + s@
            + " unsubscribe_method: "@ + u@,
        Error::Internal => "Frontend/backend channel error"@,
        Error::InvalidResponse(m) => "Invalid response: Expected: "@ + m.expected@ + ", Got: "@
            + m.got@,
        Error::RestartNeeded(r) => "The background task been terminated because: "@ + r@
            + "; restart required"@,
        Error::ParseError(p) => "Parse error: "@ + p@,
        Error::InvalidSubscriptionId => "Invalid subscription ID"@,
        Error::InvalidRequestId => "Invalid request ID"@,
        Error::DuplicateRequestId =>
            " request with the same request ID has already been registered"@,
        Error::MethodAlreadyRegistered(m) => "Method: "@ + m@ + " was already registered"@,
        Error::SubscriptionNameConflict(m) =>
            "Cannot use the same method name for subscribe and unsubscribe, used: "@ + m@,
        Error::WsRequestTimeout => "Websocket request timeout"@,
        Error::MaxSlotsExceeded => "Configured max number of request slots exceeded"@,
        Error::Custom(c) => "Custom error: "@ + c@,
    }
}

impl Error {
    /// Renders the error as human-readable text.
    pub fn message(&self) -> (r: String)
        ensures
            r@ == spec_error_message(*self),
    {
        match self {
            Error::TransportError(t) => {
                let mut s = String::from_str("Networking or low-level protocol error: ");
                s.append(t.as_str());
                s
            },
            Error::Request(se) => {
                let mut s = String::from_str("JSON-RPC request error: ");
                s.append(se.message.as_str());
                s
            },
            Error::Subscription(sm, um) => {
                let mut s = String::from_str("Subscription failed, subscribe_method: ");
                s.append(sm.as_str());
                s.append(" unsubscribe_method: ");
                s.append(um.as_str());
                s
            },
            Error::Internal => String::from_str("Frontend/backend channel error"),
            Error::InvalidResponse(m) => {
                let mut s = String::from_str("Invalid response: Expected: ");
                s.append(m.expected.as_str());
                s.append(", Got: ");
                s.append(m.got.as_str());
                s
            },
            Error::RestartNeeded(r) => {
                let mut s = String::from_str("The background task been terminated because: ");
                s.append(r.as_str());
                s.append("; restart required");
                s
            },
            Error::ParseError(p) => {
                let mut s = String::from_str("Parse error: ");
                s.append(p.as_str());
                s
            },
            Error::InvalidSubscriptionId => String::from_str("Invalid subscription ID"),
            Error::InvalidRequestId => String::from_str("Invalid request ID"),
            Error::DuplicateRequestId => String::from_str(
                " request with the same request ID has already been registered",
            ),
            Error::MethodAlreadyRegistered(m) => {
                let mut s = String::from_str("Method: ");
                s.append(m.as_str());
                s.append(" was already registered");
                s
            },
            Error::SubscriptionNameConflict(m) => {
                let mut s = String::from_str(
                    "Cannot use the same method name for subscribe and unsubscribe, used: ",
                );
                s.append(m.as_str());
                s
            },
            Error::WsRequestTimeout => String::from_str("Websocket request timeout"),
            Error::MaxSlotsExceeded => String::from_str(
                "Configured max number of request slots exceeded",
            ),
            Error::Custom(c) => {
                let mut s = String::from_str("Custom error: ");
                s.append(c.as_str());
                s
            },
        }
    }
}

/// Generic transport error.
#[derive(Clone, Debug)]
pub enum GenericTransportError<T> {
    /// Request was too large.
    TooLarge,
    /// Concrete transport error.
    Inner(T),
}

impl<T> GenericTransportError<T> {
    /// Renders the error as text: the fixed text of its kind, with the inner
    /// error's own rendering appended for `Inner`. The caller supplies that
    /// rendering, since only it can produce one for a generic payload; for
    /// `TooLarge` the argument is ignored.
    pub fn message(&self, inner: &str) -> (r: String)
        ensures
            r@ == match *self {
                GenericTransportError::TooLarge => "The request was too big"@,
                GenericTransportError::Inner(_) => "Transport error: "@ + inner@,
            },
    {
        match self {
            GenericTransportError::TooLarge => String::from_str("The request was too big"),
            GenericTransportError::Inner(_) => {
                let mut s = String::from_str("Transport error: ");
                s.append(inner);
                s
            },
        }
    }
}

/// Error kinds a server can signal for an RPC call, beyond a full error object.
#[derive(Clone, Copy, Debug, PartialEq, Eq, Structural)]
pub enum RpcError {
    /// Unknown error.
    Unknown,
    /// Invalid params in the RPC call.
    InvalidParams,
}

impl RpcError {
    /// Renders the error as text.
    pub fn message(&self) -> (r: String)
        ensures
            r@ == match *self {
                RpcError::Unknown => "unknown rpc error"@,
                RpcError::InvalidParams => "invalid paramsr"@,
            },
    {
        match self {
            RpcError::Unknown => String::from_str("unknown rpc error"),
            RpcError::InvalidParams => String::from_str("invalid paramsr"),
        }
    }
}

/// Parse error code.
pub const PARSE_ERROR_CODE: i32 = -32700;

/// Internal error code.
pub const INTERNAL_ERROR_CODE: i32 = -32603;

/// Invalid params error code.
pub const INVALID_PARAMS_CODE: i32 = -32602;

/// Invalid request error code.
pub const INVALID_REQUEST_CODE: i32 = -32600;

/// Method not found error code.
pub const METHOD_NOT_FOUND_CODE: i32 = -32601;

} // verus!
