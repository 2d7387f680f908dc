//! Layered error types. Each layer's error holds the complete error of the layer
//! beneath it, and its text form carries the whole chain of causes.
use vstd::prelude::*;
use crate::codec::{alphabet, alphabet_char, string_from_chars};

verus! {

/// A failure of the byte stream, described by the text that the system gave.
#[derive(Clone, Debug, PartialEq, Eq)]
pub struct IoError {
    pub description: String,
}

/// The decimal digits of `n`.
pub open spec fn decimal_text(n: nat) -> Seq<char>
    decreases n,
{
    if n < 10 {
        seq![alphabet(n as u8)]
    } else {
        decimal_text(n / 10).push(alphabet((n % 10) as u8))
    }
}

fn push_decimal(n: u64, out: &mut Vec<char>)
    ensures
        final(out)@ == old(out)@ + decimal_text(n as nat),
    decreases n,
{
    if n >= 10 {
        push_decimal(n / 10, out);
    }
    out.push(alphabet_char((n % 10) as u8));
    assert(out@ =~= old(out)@ + decimal_text(n as nat));
}

/// The decimal text of `n`.
pub fn decimal(n: u64) -> (r: String)
    ensures
        r@ == decimal_text(n as nat),
{
    let mut chars: Vec<char> = Vec::new();
    push_decimal(n, &mut chars);
    assert(chars@ =~= decimal_text(n as nat));
    string_from_chars(&chars)
}

/// `a`, then `b`.
fn join2(a: &str, b: &String) -> (r: String)
    ensures
        r@ == a@ + b@,
{
    String::from_str(a).concat(b.as_str())
}

/// `a`, then `b`, then `c`.
fn join3(a: &str, b: &String, c: &str) -> (r: String)
    ensures
        r@ == a@ + b@ + c@,
{
    String::from_str(a).concat(b.as_str()).concat(c)
}

impl IoError {
    /// The text form of the error.
    pub open spec fn text(&self) -> Seq<char> {
        self.description@
    }

    /// The text form of the error.
    pub fn to_string(&self) -> (r: String)
        ensures
            r@ == self.text(),
    {
        self.description.clone()
    }
}

/// Failure to read one frame from a service.
#[derive(Clone, Debug, PartialEq, Eq)]
pub enum ReadMessageError {
    /// The stream failed.
    Io(IoError),
    /// The stream ended at a frame boundary: the service disconnected.
    Disconnected,
    /// The stream ended inside a frame.
    Truncated,
    /// A frame announced a total length smaller than its header.
    ShortMessage(u16),
}

/// Failure to get the next peer from a peer listing.
#[derive(Clone, Debug, PartialEq, Eq)]
pub enum NextPeerError {
    /// Reading a frame from the service failed.
    ReadMessage(ReadMessageError),
    /// The service disconnected in the middle of the listing.
    Disconnected,
    /// The stream failed, or a peer entry was cut short.
    Io(IoError),
    /// The service sent an incoherent response. It is a bug to see this.
    InvalidResponse,
    /// The service sent a message of a type that does not belong in a listing.
    UnexpectedMessageType(u16),
}

impl ReadMessageError {
    /// The text form of the error, with its cause.
    pub open spec fn text(&self) -> Seq<char> {
        match self {
            ReadMessageError::Io(e) => "I/O error receiving a message from the service: "@ + e.text(),
            ReadMessageError::Disconnected => "The service disconnected."@,
            ReadMessageError::Truncated => "The service sent a truncated message."@,
            ReadMessageError::ShortMessage(n) => "The service sent a message whose length ("@
                + decimal_text(*n as nat) + ") is shorter than its header."@,
        }
    }

    /// The text form of the error, with its cause.
    pub fn to_string(&self) -> (r: String)
        ensures
            r@ == self.text(),
    {
        match self {
            ReadMessageError::Io(e) => join2("I/O error receiving a message from the service: ", &e.to_string()),
            ReadMessageError::Disconnected => String::from_str("The service disconnected."),
            ReadMessageError::Truncated => String::from_str("The service sent a truncated message."),
            ReadMessageError::ShortMessage(n) => join3(
                "The service sent a message whose length (",
                &decimal(*n as u64),
                ") is shorter than its header.",
            ),
        }
    }
}

/// Failure of the transport to reach a service, described by the text it gave.
#[derive(Clone, Debug, PartialEq, Eq)]
pub struct ServiceConnectError {
    pub description: String,
}

/// Text that the service sent that is not valid UTF-8, described by the decoder.
#[derive(Clone, Debug, PartialEq, Eq)]
pub struct Utf8Error {
    pub description: String,
}

/// Failure to receive a length-prefixed string from a service, described by the
/// text of its cause.
#[derive(Clone, Debug, PartialEq, Eq)]
pub struct ReadCStringWithLenError {
    pub description: String,
}

/// Errors of connecting to the identity service.
#[derive(Clone, Debug, PartialEq, Eq)]
pub enum ConnectError {
    /// Failed to connect to the service.
    Connect(ServiceConnectError),
    /// The remote service disconnected.
    Disconnected,
    /// There was an I/O error communicating with the service.
    Io(IoError),
    /// Failed to read a message from the service.
    ReadMessage(ReadMessageError),
    /// The service responded with an invalid utf-8 name. It is a bug to see this.
    InvalidName(Utf8Error),
    /// Received an unexpected message from the service. It is a bug to see this.
    UnexpectedMessageType(u16),
}

impl ConnectError {
    /// The text form of the error, with its whole chain of causes.
    pub open spec fn text(&self) -> Seq<char> {
        match self {
            ConnectError::Connect(e) => "Failed to contact the identity service: "@ + e.description@,
            ConnectError::Io(e) =>
                "I/O error communicating with the identity service during initial exchange: "@ + e.text(),
            ConnectError::ReadMessage(e) =>
                "Error receiving message from identity service during connection: "@ + e.text(),
            ConnectError::InvalidName(e) =>
                "The identity service sent a non-utf8 encoded name during initial exchange when connecting ("@
                    + e.description@ + "). THIS IS A BUG. Please file a bug report."@,
            ConnectError::UnexpectedMessageType(n) =>
                "The identity service sent an unexpected message type ("@ + decimal_text(*n as nat)
                    + ") during initial exchange when connecting. THIS IS A BUG. Please file a bug report."@,
            ConnectError::Disconnected => "The service unexpectedly disconnected."@,
        }
    }

    /// The text form of the error, with its whole chain of causes.
    pub fn to_string(&self) -> (r: String)
        ensures
            r@ == self.text(),
    {
        match self {
            ConnectError::Connect(e) => join2("Failed to contact the identity service: ", &e.description),
            ConnectError::Io(e) => join2(
                "I/O error communicating with the identity service during initial exchange: ",
                &e.to_string(),
            ),
            ConnectError::ReadMessage(e) => join2(
                "Error receiving message from identity service during connection: ",
                &e.to_string(),
            ),
            ConnectError::InvalidName(e) => join3(
                "The identity service sent a non-utf8 encoded name during initial exchange when connecting (",
                &e.description,
                "). THIS IS A BUG. Please file a bug report.",
            ),
            ConnectError::UnexpectedMessageType(n) => join3(
                "The identity service sent an unexpected message type (",
                &decimal(*n as u64),
                ") during initial exchange when connecting. THIS IS A BUG. Please file a bug report.",
            ),
            ConnectError::Disconnected => String::from_str("The service unexpectedly disconnected."),
        }
    }
}

/// Errors of looking up the default ego of a service.
#[derive(Clone, Debug, PartialEq, Eq)]
pub enum GetDefaultEgoError {
    /// The name of the service was too long.
    NameTooLong(String),
    /// An I/O error occured while communicating with the identity service.
    Io(IoError),
    /// Failed to read a message from the server.
    ReadMessage(ReadMessageError),
    /// The service responded with an error message.
    ServiceResponse(String),
    /// The service responded with an error message but the message contained invalid utf-8.
    MalformedErrorResponse(Utf8Error),
    /// Failed to receive the identity name from the service.
    ReceiveName(ReadCStringWithLenError),
    /// Failed to connect to the identity service.
    Connect(ConnectError),
    /// The service response was incoherent. It is a bug to see this.
    InvalidResponse,
    /// The remote service disconnected.
    Disconnected,
}

impl GetDefaultEgoError {
    /// The text form of the error, with its whole chain of causes.
    pub open spec fn text(&self) -> Seq<char> {
        match self {
            GetDefaultEgoError::NameTooLong(s) => "Name of service \""@ + s@
                + "\" is too long for default ego lookup"@,
            GetDefaultEgoError::Io(e) =>
                "I/O error communicating with identity service during default ego lookup: "@ + e.text(),
            GetDefaultEgoError::ReadMessage(e) =>
                "Error receiving message from identity service during default ego lookup: "@ + e.text(),
            GetDefaultEgoError::ServiceResponse(s) =>
                "Service responded with an error message in response to default ego lookup: "@ + s@,
            GetDefaultEgoError::MalformedErrorResponse(e) =>
                "Service responded with an error message in response to default ego lookup but the response contained invalid utf-8: "@
                    + e.description@,
            GetDefaultEgoError::ReceiveName(e) =>
                "Failed to receive the identity name from the service during default ego lookup: "@
                    + e.description@,
            GetDefaultEgoError::Connect(e) =>
                "Failed to connect to identity service for default ego lookup: "@ + e.text(),
            GetDefaultEgoError::InvalidResponse =>
                "Service response was incoherent. THIS IS A BUG! Please file a bug report."@,
            GetDefaultEgoError::Disconnected => "The service unexpectedly disconnected."@,
        }
    }

    /// The text form of the error, with its whole chain of causes.
    pub fn to_string(&self) -> (r: String)
        ensures
            r@ == self.text(),
    {
        match self {
            GetDefaultEgoError::NameTooLong(s) => join3(
                "Name of service \"",
                s,
                "\" is too long for default ego lookup",
            ),
            GetDefaultEgoError::Io(e) => join2(
                "I/O error communicating with identity service during default ego lookup: ",
                &e.to_string(),
            ),
            GetDefaultEgoError::ReadMessage(e) => join2(
                "Error receiving message from identity service during default ego lookup: ",
                &e.to_string(),
            ),
            GetDefaultEgoError::ServiceResponse(s) => join2(
                "Service responded with an error message in response to default ego lookup: ",
                s,
            ),
            GetDefaultEgoError::MalformedErrorResponse(e) => join2(
                "Service responded with an error message in response to default ego lookup but the response contained invalid utf-8: ",
                &e.description,
            ),
            GetDefaultEgoError::ReceiveName(e) => join2(
                "Failed to receive the identity name from the service during default ego lookup: ",
                &e.description,
            ),
            GetDefaultEgoError::Connect(e) => join2(
                "Failed to connect to identity service for default ego lookup: ",
                &e.to_string(),
            ),
            GetDefaultEgoError::InvalidResponse => String::from_str(
                "Service response was incoherent. THIS IS A BUG! Please file a bug report.",
            ),
            GetDefaultEgoError::Disconnected => String::from_str("The service unexpectedly disconnected."),
        }
    }
}

/// Errors of connecting to the identity service and looking up a default ego.
#[derive(Clone, Debug, PartialEq, Eq)]
pub enum ConnectGetDefaultEgoError {
    /// Ego lookup failed.
    GetDefaultEgo(GetDefaultEgoError),
    /// Failed to connect to the service and perform initialization.
    Connect(ConnectError),
}

impl ConnectGetDefaultEgoError {
    /// The text form of the error, with its whole chain of causes.
    pub open spec fn text(&self) -> Seq<char> {
        match self {
            ConnectGetDefaultEgoError::GetDefaultEgo(e) =>
                "Connected to identity service but default ego lookup failed: "@ + e.text(),
            ConnectGetDefaultEgoError::Connect(e) =>
                "Failed to connect to identity service to perform default ego lookup: "@ + e.text(),
        }
    }

    /// The text form of the error, with its whole chain of causes.
    pub fn to_string(&self) -> (r: String)
        ensures
            r@ == self.text(),
    {
        match self {
            ConnectGetDefaultEgoError::GetDefaultEgo(e) => join2(
                "Connected to identity service but default ego lookup failed: ",
                &e.to_string(),
            ),
            ConnectGetDefaultEgoError::Connect(e) => join2(
                "Failed to connect to identity service to perform default ego lookup: ",
                &e.to_string(),
            ),
        }
    }
}

/// The text of a connect failure caused by an I/O failure holds the description
/// of the connect failure followed by the text of the I/O failure, and likewise
/// one level further out.
pub proof fn lemma_connect_io_text_has_both(io: IoError)
    ensures
        ConnectError::Io(io).text()
            == "I/O error communicating with the identity service during initial exchange: "@ + io.text(),
        ConnectGetDefaultEgoError::Connect(ConnectError::Io(io)).text()
            == "Failed to connect to identity service to perform default ego lookup: "@
                + "I/O error communicating with the identity service during initial exchange: "@ + io.text(),
{
}

} // verus!
