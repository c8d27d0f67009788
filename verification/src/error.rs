//! Errors shared by several modules.

use crate::msg::MsgError;
use vstd::prelude::*;

verus! {

/// Category of an error when it is reported as an IO error.
#[derive(Debug, Clone, Copy, PartialEq, Eq, Structural)]
pub enum ErrorKind {
    /// The connection was refused by the remote endpoint.
    ConnectionRefused,
    /// The connection was reset by the remote endpoint.
    ConnectionReset,
    /// The connection was aborted.
    ConnectionAborted,
    /// The address is already in use.
    AddrInUse,
    /// The operation failed because a pipe was closed.
    BrokenPipe,
    /// The data is not valid.
    InvalidData,
    /// The operation took too long.
    TimedOut,
    /// The data ended early.
    UnexpectedEof,
    /// A parameter is not valid.
    InvalidInput,
}

/// The message that was expected while establishing a link.
#[derive(Debug, Clone, Copy, PartialEq, Eq, Structural)]
pub enum Expected {
    /// The welcome message of the server.
    Welcome,
    /// The request of the client.
    Connect,
    /// The reply of the server to the request.
    Reply,
}

impl Expected {
    /// Text describing that another message was received.
    pub open spec fn describe(self) -> Seq<char> {
        match self {
            Expected::Welcome => "expected Welcome message"@,
            Expected::Connect => "expected Connect message"@,
            Expected::Reply => "expected Accepted or Refused message"@,
        }
    }

    /// Text describing that another message was received.
    pub fn text(&self) -> (r: String)
        ensures
            r@ == self.describe(),
    {
        match self {
            Expected::Welcome => "expected Welcome message".to_string(),
            Expected::Connect => "expected Connect message".to_string(),
            Expected::Reply => "expected Accepted or Refused message".to_string(),
        }
    }
}

/// Failure of a link.
#[derive(Debug, Clone, PartialEq, Eq)]
pub enum LinkError {
    /// The underlying transport failed.
    Io(String),
    /// The link has already failed before.
    Failed,
    /// The remote endpoint closed the link.
    Closed,
    /// A message received over the link could not be decoded.
    Msg(MsgError),
    /// Another message than the expected one was received while establishing the link.
    Unexpected(Expected),
    /// The remote endpoint closed the link while it was being established.
    Ended,
    /// It took too long to establish the link.
    Elapsed,
}

impl LinkError {
    /// Text describing this error.
    pub open spec fn describe(self) -> Seq<char> {
        match self {
            LinkError::Io(text) => text@,
            LinkError::Failed => "link has failed"@,
            LinkError::Closed => "broken pipe"@,
            LinkError::Msg(err) => err.describe(),
            LinkError::Unexpected(expected) => expected.describe(),
            LinkError::Ended => "message too short"@,
            LinkError::Elapsed => "deadline has elapsed"@,
        }
    }

    /// Text describing this error.
    pub fn text(&self) -> (r: String)
        ensures
            r@ == self.describe(),
    {
        match self {
            LinkError::Io(text) => text.clone(),
            LinkError::Failed => "link has failed".to_string(),
            LinkError::Closed => "broken pipe".to_string(),
            LinkError::Msg(err) => err.text(),
            LinkError::Unexpected(expected) => expected.text(),
            LinkError::Ended => "message too short".to_string(),
            LinkError::Elapsed => "deadline has elapsed".to_string(),
        }
    }

    /// Category of this error as an IO error.
    ///
    /// `None` if the underlying transport failed, which then has its own category.
    pub open spec fn category(self) -> Option<ErrorKind> {
        match self {
            LinkError::Io(_) => None,
            LinkError::Failed => Some(ErrorKind::ConnectionAborted),
            LinkError::Closed => Some(ErrorKind::BrokenPipe),
            LinkError::Msg(err) => Some(err.category()),
            LinkError::Unexpected(_) => Some(ErrorKind::InvalidData),
            LinkError::Ended => Some(ErrorKind::UnexpectedEof),
            LinkError::Elapsed => Some(ErrorKind::TimedOut),
        }
    }

    /// Category of this error as an IO error.
    pub fn kind(&self) -> (r: Option<ErrorKind>)
        ensures
            r == self.category(),
    {
        match self {
            LinkError::Io(_) => None,
            LinkError::Failed => Some(ErrorKind::ConnectionAborted),
            LinkError::Closed => Some(ErrorKind::BrokenPipe),
            LinkError::Msg(err) => Some(err.kind()),
            LinkError::Unexpected(_) => Some(ErrorKind::InvalidData),
            LinkError::Ended => Some(ErrorKind::UnexpectedEof),
            LinkError::Elapsed => Some(ErrorKind::TimedOut),
        }
    }
}

/// A violation of the protocol by the remote endpoint of a connection.
#[derive(Debug, Clone, Copy, PartialEq, Eq, Structural)]
pub enum ProtocolError {
    /// The remote endpoint requested disconnection of a link twice.
    RepeatedGoodbye,
    /// A message was received that is only valid while the link is being established.
    UnexpectedMessage,
    /// A sequence number is too far away from the expected one.
    SeqUnderflow,
    /// More data was received than the receive buffer can hold.
    RecvBufferOverflow,
    /// More data was reported as consumed than has been sent.
    ConsumedUnderflow,
}

impl ProtocolError {
    /// Text describing this error.
    pub open spec fn describe(self) -> Seq<char> {
        match self {
            ProtocolError::RepeatedGoodbye => "received Goodbye message more than once"@,
            ProtocolError::UnexpectedMessage => "received unexpected message"@,
            ProtocolError::SeqUnderflow => "sequence number underflow"@,
            ProtocolError::RecvBufferOverflow => "receive buffer overflow"@,
            ProtocolError::ConsumedUnderflow => "txed_unconsumed underflow"@,
        }
    }

    /// Text describing this error.
    pub fn text(&self) -> (r: String)
        ensures
            r@ == self.describe(),
    {
        match self {
            ProtocolError::RepeatedGoodbye => "received Goodbye message more than once".to_string(),
            ProtocolError::UnexpectedMessage => "received unexpected message".to_string(),
            ProtocolError::SeqUnderflow => "sequence number underflow".to_string(),
            ProtocolError::RecvBufferOverflow => "receive buffer overflow".to_string(),
            ProtocolError::ConsumedUnderflow => "txed_unconsumed underflow".to_string(),
        }
    }

    /// Category of this error as an IO error.
    pub fn kind(&self) -> (r: ErrorKind)
        ensures
            r == ErrorKind::InvalidData,
    {
        ErrorKind::InvalidData
    }
}

} // verus!
