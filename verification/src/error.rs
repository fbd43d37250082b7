//! The error taxonomy shared by the codec, the decoder and the scan.

use vstd::prelude::*;

verus! {

/// An I/O error of the standard library, carried through unread.
#[verifier::external_type_specification]
#[verifier::external_body]
pub struct ExIoError(std::io::Error);

/// A category of I/O error, carried through unread.
#[verifier::external_type_specification]
#[verifier::external_body]
pub struct ExIoErrorKind(std::io::ErrorKind);

/// The failure `prost` reports for a malformed message, carried through unread.
#[verifier::external_type_specification]
#[verifier::external_body]
pub struct ExDecodeError(prost::DecodeError);

/// The failure a thread pool reports when it cannot run a blocking section.
#[verifier::external_type_specification]
#[verifier::external_body]
pub struct ExBlockingError(tokio_threadpool::BlockingError);

/// The code a server attaches to a failed call.
#[derive(Clone, Copy, Debug, PartialEq, Eq, Structural)]
pub enum RpcErrorCode {
    FatalUnknown,
    ErrorApplication,
    ErrorNoSuchMethod,
    ErrorNoSuchService,
    ErrorServerTooBusy,
    ErrorInvalidRequest,
    ErrorRequestStale,
    ErrorUnavailable,
    FatalServerShuttingDown,
    FatalInvalidRpcHeader,
    FatalDeserializingRequest,
    FatalVersionMismatch,
    FatalUnauthorized,
    FatalInvalidAuthenticationToken,
}

impl RpcErrorCode {
    /// The codes after which the connection is torn down.
    pub open spec fn fatal(self) -> bool {
        self is FatalDeserializingRequest || self is FatalInvalidAuthenticationToken
            || self is FatalInvalidRpcHeader || self is FatalServerShuttingDown
            || self is FatalUnauthorized || self is FatalUnknown || self is FatalVersionMismatch
    }

    /// The one code after which the same request may be sent again.
    pub open spec fn retriable(self) -> bool {
        self is ErrorServerTooBusy
    }

    /// The fixed text that describes a code.
    pub open spec fn text(self) -> Seq<char> {
        match self {
            RpcErrorCode::ErrorApplication => "application error"@,
            RpcErrorCode::ErrorInvalidRequest => "invalid request"@,
            RpcErrorCode::ErrorNoSuchMethod => "no such method"@,
            RpcErrorCode::ErrorNoSuchService => "no such service"@,
            RpcErrorCode::ErrorRequestStale => "request stale"@,
            RpcErrorCode::ErrorServerTooBusy => "server too busy"@,
            RpcErrorCode::ErrorUnavailable => "unavailable"@,
            RpcErrorCode::FatalDeserializingRequest => "error deserializing request"@,
            RpcErrorCode::FatalInvalidAuthenticationToken => "invalid authentication token"@,
            RpcErrorCode::FatalInvalidRpcHeader => "invalid RPC header"@,
            RpcErrorCode::FatalServerShuttingDown => "server shutting down"@,
            RpcErrorCode::FatalUnauthorized => "unauthorized"@,
            RpcErrorCode::FatalVersionMismatch => "version mismatch"@,
            RpcErrorCode::FatalUnknown => "unknown error"@,
        }
    }
}

/// The error status message of a response header, already decoded.
pub struct ErrorStatusPb {
    pub code: RpcErrorCode,
    pub message: String,
    pub unsupported_feature_flags: Vec<u32>,
}

/// An error returned by a remote server in response to a call.
#[derive(Debug)]
pub struct RpcError {
    /// The error kind.
    pub code: RpcErrorCode,
    /// The error message.
    pub message: String,
    /// The feature flags the server lacks, when the code is `ErrorInvalidRequest`.
    pub unsupported_feature_flags: Vec<u32>,
}

impl RpcError {
    /// Whether the error is fatal: the connection to the server is reset.
    pub fn is_fatal(&self) -> (fatal: bool)
        ensures
            fatal == self.code.fatal(),
    {
        match self.code {
            RpcErrorCode::FatalDeserializingRequest
            | RpcErrorCode::FatalInvalidAuthenticationToken
            | RpcErrorCode::FatalInvalidRpcHeader
            | RpcErrorCode::FatalServerShuttingDown
            | RpcErrorCode::FatalUnauthorized
            | RpcErrorCode::FatalUnknown
            | RpcErrorCode::FatalVersionMismatch => true,
            _ => false,
        }
    }

    /// Whether the request can be retried.
    pub fn is_retriable(&self) -> (retriable: bool)
        ensures
            retriable == self.code.retriable(),
    {
        self.code == RpcErrorCode::ErrorServerTooBusy
    }

    /// The fixed text for the error's code.
    pub fn description(&self) -> (text: &'static str)
        ensures
            text@ == self.code.text(),
    {
        match self.code {
            RpcErrorCode::ErrorApplication => "application error",
            RpcErrorCode::ErrorInvalidRequest => "invalid request",
            RpcErrorCode::ErrorNoSuchMethod => "no such method",
            RpcErrorCode::ErrorNoSuchService => "no such service",
            RpcErrorCode::ErrorRequestStale => "request stale",
            RpcErrorCode::ErrorServerTooBusy => "server too busy",
            RpcErrorCode::ErrorUnavailable => "unavailable",
            RpcErrorCode::FatalDeserializingRequest => "error deserializing request",
            RpcErrorCode::FatalInvalidAuthenticationToken => "invalid authentication token",
            RpcErrorCode::FatalInvalidRpcHeader => "invalid RPC header",
            RpcErrorCode::FatalServerShuttingDown => "server shutting down",
            RpcErrorCode::FatalUnauthorized => "unauthorized",
            RpcErrorCode::FatalVersionMismatch => "version mismatch",
            RpcErrorCode::FatalUnknown => "unknown error",
        }
    }

    /// The error that a status message stands for, field by field.
    pub fn from_status(status: ErrorStatusPb) -> (error: RpcError)
        ensures
            error.code == status.code,
            error.message == status.message,
            error.unsupported_feature_flags == status.unsupported_feature_flags,
    {
        let code = status.code;
        let message = status.message;
        let unsupported_feature_flags = status.unsupported_feature_flags;
        RpcError { code, message, unsupported_feature_flags }
    }

    /// A copy with the same code, message and flags.
    pub fn duplicate(&self) -> (copy: RpcError)
        ensures
            copy.code == self.code,
            copy.message@ == self.message@,
            copy.unsupported_feature_flags@ == self.unsupported_feature_flags@,
    {
        RpcError {
            code: self.code,
            message: self.message.clone(),
            unsupported_feature_flags: self.unsupported_feature_flags.clone(),
        }
    }
}

/// Everything that can go wrong in a call or a scan.
#[derive(Debug)]
pub enum Error {
    /// The server answered with an error.
    Rpc(RpcError),
    /// The transport or the operating system failed.
    Io(std::io::Error),
    /// Wire data was malformed.
    Serialization(String),
    /// The deadline passed.
    TimedOut,
    /// The handshake with the server failed.
    Negotiation(String),
    /// The caller asked for something that does not exist.
    InvalidArgument(String),
}

/// `std::io::Error::raw_os_error`: the operating system's code, where the
/// error came from one.
#[verifier::external_body]
fn io_raw_os_error(error: &std::io::Error) -> Option<i32> {
    error.raw_os_error()
}

/// `std::io::Error::from_raw_os_error`: the error for an operating system code.
#[verifier::external_body]
fn io_from_raw_os_error(code: i32) -> std::io::Error {
    std::io::Error::from_raw_os_error(code)
}

/// `std::io::Error::kind`: the category of an error.
#[verifier::external_body]
fn io_kind(error: &std::io::Error) -> std::io::ErrorKind {
    error.kind()
}

/// `From<ErrorKind> for std::io::Error`: a bare error of a category.
#[verifier::external_body]
fn io_from_kind(kind: std::io::ErrorKind) -> std::io::Error {
    std::io::Error::from(kind)
}

/// `ToString::to_string` on `std::io::Error`: the text it displays.
#[verifier::external_body]
fn io_text(error: &std::io::Error) -> String {
    error.to_string()
}

/// `std::io::Error::new` with the category `Other`, whose payload is the text
/// that `tokio_threadpool::BlockingError` displays.
#[verifier::external_body]
fn blocking_io_error(error: &tokio_threadpool::BlockingError) -> std::io::Error {
    std::io::Error::new(std::io::ErrorKind::Other, format!("{}", error))
}

impl Error {
    /// Which errors reset the connection: a fatal server code, any I/O,
    /// serialization or negotiation failure. A timeout and a rejected argument
    /// leave it standing.
    pub open spec fn fatal(&self) -> bool {
        match *self {
            Error::Rpc(error) => error.code.fatal(),
            Error::Io(_) => true,
            Error::Serialization(_) => true,
            Error::TimedOut => false,
            Error::Negotiation(_) => true,
            Error::InvalidArgument(_) => false,
        }
    }

    /// Whether the error is fatal to the connection it arrived on.
    pub fn is_fatal(&self) -> (fatal: bool)
        ensures
            fatal == self.fatal(),
    {
        match self {
            Error::Rpc(error) => error.is_fatal(),
            Error::Io(_) => true,
            Error::Serialization(_) => true,
            Error::TimedOut => false,
            Error::Negotiation(_) => true,
            Error::InvalidArgument(_) => false,
        }
    }

    /// What a copy keeps of the error it was made from: the variant, and with
    /// it the server's error or the message. Of an I/O error only the variant
    /// is kept for sure.
    pub open spec fn same_as(&self, other: &Error) -> bool {
        match (*self, *other) {
            (Error::Rpc(a), Error::Rpc(b)) => a.code == b.code && a.message@ == b.message@
                && a.unsupported_feature_flags@ == b.unsupported_feature_flags@,
            (Error::Io(_), Error::Io(_)) => true,
            (Error::Serialization(a), Error::Serialization(b)) => a@ == b@,
            (Error::TimedOut, Error::TimedOut) => true,
            (Error::Negotiation(a), Error::Negotiation(b)) => a@ == b@,
            (Error::InvalidArgument(a), Error::InvalidArgument(b)) => a@ == b@,
            _ => false,
        }
    }

    /// A copy of the error. An I/O error is rebuilt from its operating system
    /// code, or else from its category alone.
    pub fn duplicate(&self) -> (copy: Error)
        ensures
            copy.same_as(self),
    {
        match self {
            Error::Rpc(error) => Error::Rpc(error.duplicate()),
            Error::Io(error) => {
                match io_raw_os_error(error) {
                    Some(code) => Error::Io(io_from_raw_os_error(code)),
                    None => Error::Io(io_from_kind(io_kind(error))),
                }
            },
            Error::Serialization(error) => Error::Serialization(error.clone()),
            Error::TimedOut => Error::TimedOut,
            Error::Negotiation(error) => Error::Negotiation(error.clone()),
            Error::InvalidArgument(error) => Error::InvalidArgument(error.clone()),
        }
    }

    /// The text that describes the error. For a server error it is the fixed
    /// text of its code, for a timeout a fixed text, for a message-carrying
    /// variant the message.
    pub fn description(&self) -> (text: String)
        ensures
            match *self {
                Error::Rpc(error) => text@ == error.code.text(),
                Error::Io(_) => true,
                Error::Serialization(message) => text@ == message@,
                Error::TimedOut => text@ == "RPC timed out"@,
                Error::Negotiation(message) => text@ == message@,
                Error::InvalidArgument(message) => text@ == message@,
            },
    {
        match self {
            Error::Rpc(error) => error.description().to_owned(),
            Error::Io(error) => io_text(error),
            Error::Serialization(message) => message.clone(),
            Error::TimedOut => "RPC timed out".to_owned(),
            Error::Negotiation(message) => message.clone(),
            Error::InvalidArgument(message) => message.clone(),
        }
    }

    /// A malformed message becomes a serialization error whose message is
    /// the text that the decoder's error displays.
    pub fn from_decode_error(error: prost::DecodeError) -> (converted: Error)
        ensures
            converted matches Error::Serialization(text)
                && vstd::string::to_string_from_display_ensures::<prost::DecodeError>(&error, text),
    {
        Error::Serialization(error.to_string())
    }

    /// A refused blocking section becomes an I/O error.
    pub fn from_blocking_error(error: tokio_threadpool::BlockingError) -> (converted: Error)
        ensures
            converted is Io,
    {
        Error::Io(blocking_io_error(&error))
    }
}

impl Clone for RpcError {
    fn clone(&self) -> (copy: RpcError)
        ensures
            copy.code == self.code,
            copy.message@ == self.message@,
            copy.unsupported_feature_flags@ == self.unsupported_feature_flags@,
    {
        self.duplicate()
    }
}

impl Clone for Error {
    fn clone(&self) -> (copy: Error)
        ensures
            copy.same_as(self),
    {
        self.duplicate()
    }
}

impl From<RpcError> for Error {
    fn from(error: RpcError) -> (converted: Error) {
        Error::Rpc(error)
    }
}

impl vstd::std_specs::convert::FromSpecImpl<RpcError> for Error {
    open spec fn obeys_from_spec() -> bool {
        true
    }

    open spec fn from_spec(error: RpcError) -> Error {
        Error::Rpc(error)
    }
}

impl From<std::io::Error> for Error {
    fn from(error: std::io::Error) -> (converted: Error) {
        Error::Io(error)
    }
}

impl vstd::std_specs::convert::FromSpecImpl<std::io::Error> for Error {
    open spec fn obeys_from_spec() -> bool {
        true
    }

    open spec fn from_spec(error: std::io::Error) -> Error {
        Error::Io(error)
    }
}

impl From<ErrorStatusPb> for RpcError {
    fn from(status: ErrorStatusPb) -> (error: RpcError) {
        RpcError::from_status(status)
    }
}

impl vstd::std_specs::convert::FromSpecImpl<ErrorStatusPb> for RpcError {
    open spec fn obeys_from_spec() -> bool {
        true
    }

    open spec fn from_spec(status: ErrorStatusPb) -> RpcError {
        RpcError {
            code: status.code,
            message: status.message,
            unsupported_feature_flags: status.unsupported_feature_flags,
        }
    }
}

} // verus!
