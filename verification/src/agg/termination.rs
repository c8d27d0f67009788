//! Termination of a connection.

use crate::alc::{RecvError, SendError};
use crate::control::DisconnectReason;
use crate::error::{ErrorKind, ProtocolError};
use crate::id::{id_text, LinkId};
use crate::text::join;
use vstd::prelude::*;

verus! {

/// Error indicating why a connection of aggregated links failed.
#[derive(Debug, Clone, PartialEq, Eq)]
pub enum TaskError {
    /// All links were unconfirmed for too long at the same time.
    AllUnconfirmedTimeout,
    /// No links were available for too long.
    NoLinksTimeout,
    /// A protocol error occured on a link.
    ProtocolError {
        /// Link on which the error occured.
        link_id: LinkId,
        /// Protocol error description.
        error: String,
    },
    /// A link connected to another server than the other links.
    ///
    /// This will occur when the server is restarted while a client is connected.
    ServerIdMismatch,
    /// The connection was forcefully terminated.
    Terminated,
    /// The server aborted the connection while no link was working.
    AbortedByServer,
}

impl TaskError {
    /// Text describing this error.
    pub open spec fn describe(self) -> Seq<char> {
        match self {
            TaskError::AllUnconfirmedTimeout => "all links unconfirmed timeout"@,
            TaskError::NoLinksTimeout => "no links available timeout"@,
            TaskError::ProtocolError { link_id, error } => "protocol error on link "@ + id_text(link_id.0) + ": "@
                + error@,
            TaskError::ServerIdMismatch => "a new link connected to another server"@,
            TaskError::Terminated => "connection forcefully terminated"@,
            TaskError::AbortedByServer => "connection aborted by server"@,
        }
    }

    /// Text describing this error.
    pub fn text(&self) -> (r: String)
        ensures
            r@ == self.describe(),
    {
        match self {
            TaskError::AllUnconfirmedTimeout => "all links unconfirmed timeout".to_string(),
            TaskError::NoLinksTimeout => "no links available timeout".to_string(),
            TaskError::ProtocolError { link_id, error } => {
                let start: String = join("protocol error on link ", link_id.text().as_str());
                let middle: String = join(start.as_str(), ": ");
                join(middle.as_str(), error.as_str())
            },
            TaskError::ServerIdMismatch => "a new link connected to another server".to_string(),
            TaskError::Terminated => "connection forcefully terminated".to_string(),
            TaskError::AbortedByServer => "connection aborted by server".to_string(),
        }
    }

    /// Category of this error as an IO error.
    pub fn kind(&self) -> (r: ErrorKind)
        ensures
            r == ErrorKind::ConnectionAborted,
    {
        ErrorKind::ConnectionAborted
    }
}

/// Fatal error during connecting.
#[derive(Debug, Clone, Copy, PartialEq, Eq, Structural)]
pub enum FatalConnectError {
    /// A link connected to another server than the other links.
    ServerIdMismatch,
    /// The remote endpoint indicated that the connection is already closed.
    Closed,
}

/// Forceful connection termination.
#[derive(Debug, Clone, Copy, PartialEq, Eq, Structural)]
pub enum SendTerminate {
    /// No termination messages are exchanged.
    Silent,
    /// Initiate termination.
    Initiate,
    /// Reply to received termination request.
    Reply,
}

/// Reason for the termination of a connection.
#[derive(Debug, Clone, Copy, PartialEq, Eq, Structural)]
pub enum Termination {
    /// Sender and receiver were dropped.
    Closed,
    /// No links are available and none can be added.
    NoMoreLinks,
    /// No links were available for too long.
    NoLinksTimeout,
    /// The connection was forcefully terminated by this endpoint.
    Local,
    /// The connection was forcefully terminated by the remote endpoint.
    Remote,
    /// The remote endpoint violated the protocol.
    Protocol {
        /// Link on which the violation occured.
        link_id: LinkId,
        /// Violation.
        error: ProtocolError,
    },
    /// A link connected to another server than the other links.
    ServerIdMismatch,
    /// The server closed the connection.
    AbortedByServer,
}

impl Termination {
    /// Result of the connection.
    pub fn result(&self) -> (r: Result<(), TaskError>)
        ensures
            match *self {
                Termination::Closed => r is Ok,
                Termination::NoMoreLinks => r == Err::<(), TaskError>(TaskError::AllUnconfirmedTimeout),
                Termination::NoLinksTimeout => r == Err::<(), TaskError>(TaskError::NoLinksTimeout),
                Termination::Local | Termination::Remote => r == Err::<(), TaskError>(TaskError::Terminated),
                Termination::Protocol { link_id, error } => {
                    &&& r matches Err(TaskError::ProtocolError { link_id: id, error: text })
                    &&& id == link_id
                    &&& text@ == error.describe()
                },
                Termination::ServerIdMismatch => r == Err::<(), TaskError>(TaskError::ServerIdMismatch),
                Termination::AbortedByServer => r == Err::<(), TaskError>(TaskError::AbortedByServer),
            },
    {
        match *self {
            Termination::Closed => Ok(()),
            Termination::NoMoreLinks => Err(TaskError::AllUnconfirmedTimeout),
            Termination::NoLinksTimeout => Err(TaskError::NoLinksTimeout),
            Termination::Local | Termination::Remote => Err(TaskError::Terminated),
            Termination::Protocol { link_id, error } => Err(
                TaskError::ProtocolError { link_id, error: error.text() },
            ),
            Termination::ServerIdMismatch => Err(TaskError::ServerIdMismatch),
            Termination::AbortedByServer => Err(TaskError::AbortedByServer),
        }
    }

    /// Error reported to the receiver.
    pub open spec fn recv_error(self) -> Option<RecvError> {
        match self {
            Termination::Closed => None,
            Termination::NoMoreLinks | Termination::NoLinksTimeout => Some(RecvError::AllLinksFailed),
            Termination::Local | Termination::Remote => Some(RecvError::TaskTerminated),
            Termination::Protocol { .. } => Some(RecvError::ProtocolError),
            Termination::ServerIdMismatch => Some(RecvError::ServerIdMismatch),
            Termination::AbortedByServer => Some(RecvError::AbortedByServer),
        }
    }

    /// Error reported to the receiver.
    pub fn read_term(&self) -> (r: Option<RecvError>)
        ensures
            r == self.recv_error(),
    {
        match *self {
            Termination::Closed => None,
            Termination::NoMoreLinks | Termination::NoLinksTimeout => Some(RecvError::AllLinksFailed),
            Termination::Local | Termination::Remote => Some(RecvError::TaskTerminated),
            Termination::Protocol { .. } => Some(RecvError::ProtocolError),
            Termination::ServerIdMismatch => Some(RecvError::ServerIdMismatch),
            Termination::AbortedByServer => Some(RecvError::AbortedByServer),
        }
    }

    /// Error reported to the sender.
    pub open spec fn send_error(self) -> SendError {
        match self {
            Termination::Closed => SendError::Closed,
            Termination::NoMoreLinks | Termination::NoLinksTimeout => SendError::AllLinksFailed,
            Termination::Local | Termination::Remote => SendError::TaskTerminated,
            Termination::Protocol { .. } => SendError::ProtocolError,
            Termination::ServerIdMismatch => SendError::ServerIdMismatch,
            Termination::AbortedByServer => SendError::AbortedByServer,
        }
    }

    /// Error reported to the sender.
    pub fn write_term(&self) -> (r: SendError)
        ensures
            r == self.send_error(),
    {
        match *self {
            Termination::Closed => SendError::Closed,
            Termination::NoMoreLinks | Termination::NoLinksTimeout => SendError::AllLinksFailed,
            Termination::Local | Termination::Remote => SendError::TaskTerminated,
            Termination::Protocol { .. } => SendError::ProtocolError,
            Termination::ServerIdMismatch => SendError::ServerIdMismatch,
            Termination::AbortedByServer => SendError::AbortedByServer,
        }
    }

    /// Reason for the disconnection of all links.
    pub fn link_term(&self) -> (r: DisconnectReason)
        ensures
            match *self {
                Termination::Closed => r == DisconnectReason::ConnectionClosed,
                Termination::NoMoreLinks | Termination::NoLinksTimeout => r
                    == DisconnectReason::AllUnconfirmedTimeout,
                Termination::Local | Termination::Remote => r == DisconnectReason::TaskTerminated,
                Termination::Protocol { error, .. } => r matches DisconnectReason::ProtocolError(text) && text@
                    == error.describe(),
                Termination::ServerIdMismatch => r == DisconnectReason::ServerIdMismatch,
                Termination::AbortedByServer => r == DisconnectReason::AbortedByServer,
            },
    {
        match *self {
            Termination::Closed => DisconnectReason::ConnectionClosed,
            Termination::NoMoreLinks | Termination::NoLinksTimeout => DisconnectReason::AllUnconfirmedTimeout,
            Termination::Local | Termination::Remote => DisconnectReason::TaskTerminated,
            Termination::Protocol { error, .. } => DisconnectReason::ProtocolError(error.text()),
            Termination::ServerIdMismatch => DisconnectReason::ServerIdMismatch,
            Termination::AbortedByServer => DisconnectReason::AbortedByServer,
        }
    }

    /// Whether and how termination messages are exchanged with the remote endpoint.
    pub fn send_terminate(&self) -> (r: SendTerminate)
        ensures
            r == match *self {
                Termination::Local => SendTerminate::Initiate,
                Termination::Remote => SendTerminate::Reply,
                _ => SendTerminate::Silent,
            },
    {
        match *self {
            Termination::Local => SendTerminate::Initiate,
            Termination::Remote => SendTerminate::Reply,
            _ => SendTerminate::Silent,
        }
    }
}

} // verus!
