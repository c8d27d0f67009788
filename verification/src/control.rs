//! Connection and link control.

use crate::error::{ErrorKind, LinkError};
use crate::id::{id_text, ServerId};
use crate::msg::RefusedReason;
use crate::text::join;
use crate::time::{Duration, Instant};
use vstd::prelude::*;
use vstd::std_specs::convert::FromSpecImpl;

verus! {

/// Error adding a link to a connection.
#[derive(Debug, Clone, PartialEq, Eq)]
pub enum AddLinkError {
    /// IO error.
    Io(LinkError),
    /// The link is connected to a different server than the other links of
    /// this connection.
    ///
    /// This will occur when the server is restarted while a client is connected.
    ServerIdMismatch {
        /// Expected server id.
        expected: ServerId,
        /// Server id of the remote endpoint.
        present: ServerId,
    },
    /// The server is not accepting new connections.
    NotListening,
    /// The connection was closed.
    ConnectionClosed,
    /// The connection was actively refused.
    ConnectionRefused,
    /// The link was actively refused by the link filter.
    LinkRefused,
}

impl AddLinkError {
    /// Returns whether the connection attempt should be retried.
    pub fn should_reconnect(&self) -> (r: bool)
        ensures
            r == (*self is Io),
    {
        matches!(self, AddLinkError::Io(_))
    }

    /// Text describing this error.
    pub open spec fn describe(self) -> Seq<char> {
        match self {
            AddLinkError::Io(err) => "IO error: "@ + err.describe(),
            AddLinkError::ServerIdMismatch { expected, present } => "connected to server "@ + id_text(expected.0)
                + " but link connects to server "@ + id_text(present.0),
            AddLinkError::NotListening => "not listening"@,
            AddLinkError::ConnectionClosed => "connection closed"@,
            AddLinkError::ConnectionRefused => "connection refused"@,
            AddLinkError::LinkRefused => "link refused"@,
        }
    }

    /// Text describing this error.
    pub fn text(&self) -> (r: String)
        ensures
            r@ == self.describe(),
    {
        match self {
            AddLinkError::Io(err) => join("IO error: ", err.text().as_str()),
            AddLinkError::ServerIdMismatch { expected, present } => {
                let start: String = join("connected to server ", expected.text().as_str());
                let middle: String = join(start.as_str(), " but link connects to server ");
                join(middle.as_str(), present.text().as_str())
            },
            AddLinkError::NotListening => "not listening".to_string(),
            AddLinkError::ConnectionClosed => "connection closed".to_string(),
            AddLinkError::ConnectionRefused => "connection refused".to_string(),
            AddLinkError::LinkRefused => "link refused".to_string(),
        }
    }

    /// Category of this error as an IO error.
    ///
    /// `None` if the underlying transport failed, which then has its own category.
    pub fn kind(&self) -> (r: Option<ErrorKind>)
        ensures
            r == match *self {
                AddLinkError::Io(err) => err.category(),
                _ => Some(ErrorKind::ConnectionRefused),
            },
    {
        match self {
            AddLinkError::Io(err) => err.kind(),
            _ => Some(ErrorKind::ConnectionRefused),
        }
    }
}

impl FromSpecImpl<RefusedReason> for AddLinkError {
    open spec fn obeys_from_spec() -> bool {
        true
    }

    open spec fn from_spec(reason: RefusedReason) -> AddLinkError {
        match reason {
            RefusedReason::Closed => AddLinkError::ConnectionClosed,
            RefusedReason::NotListening => AddLinkError::NotListening,
            RefusedReason::ConnectionRefused => AddLinkError::ConnectionRefused,
            RefusedReason::LinkRefused => AddLinkError::LinkRefused,
        }
    }
}

impl From<RefusedReason> for AddLinkError {
    fn from(reason: RefusedReason) -> (r: Self) {
        match reason {
            RefusedReason::Closed => AddLinkError::ConnectionClosed,
            RefusedReason::NotListening => AddLinkError::NotListening,
            RefusedReason::ConnectionRefused => AddLinkError::ConnectionRefused,
            RefusedReason::LinkRefused => AddLinkError::LinkRefused,
        }
    }
}

/// Direction of a connection or link.
#[derive(Clone, Copy, Debug, PartialEq, Eq, PartialOrd, Ord, Hash, Structural)]
pub enum Direction {
    /// Incoming connection or link.
    Incoming,
    /// Outgoing connection or link.
    Outgoing,
}

impl Direction {
    /// Text describing this direction.
    pub fn text(&self) -> (r: String)
        ensures
            r@ == match *self {
                Direction::Incoming => "incoming"@,
                Direction::Outgoing => "outgoing"@,
            },
    {
        match self {
            Direction::Incoming => "incoming".to_string(),
            Direction::Outgoing => "outgoing".to_string(),
        }
    }
}

/// Connection statistics.
#[derive(Debug, Clone, Copy, PartialEq, Eq, PartialOrd, Ord, Hash, Structural)]
#[non_exhaustive]
pub struct Stats {
    /// Time when the connection was established.
    pub established: Option<Instant>,
    /// Time since when no link of the connection is working.
    pub not_working_since: Option<Instant>,
    /// Available buffer space for sending data.
    pub send_space: u64,
    /// Size of data sent and not yet acknowledged by remote endpoint.
    pub sent_unacked: u64,
    /// Size of data that has been sent and not yet consumed by the remote endpoint.
    pub sent_unconsumed: u64,
    /// Number of packets sent that the remote endpoint is not yet known to be able to consume, because
    /// the reception of one of them or of an earlier one has not been acknowledged.
    pub sent_unconsumed_count: usize,
    /// Size of data received by remote endpoint that cannot yet be consumed,
    /// because intermediate data has not yet been received.
    pub sent_unconsumable: u64,
    /// Length of the queue for resending lost packets.
    pub resend_queue_len: usize,
    /// Size of data that has been received and not yet consumed.
    pub recved_unconsumed: u64,
    /// Number of packets received and not yet consumed.
    pub recved_unconsumed_count: usize,
}

/// Link statistics over a time interval.
#[derive(Debug, Clone, Copy, PartialEq, Eq, PartialOrd, Ord, Hash, Structural)]
#[non_exhaustive]
pub struct LinkIntervalStats {
    /// Duration of interval.
    pub interval: Duration,
    /// Start time of interval.
    pub start: Instant,
    /// Bytes sent within time interval.
    pub sent: u64,
    /// Bytes received within time interval.
    pub recved: u64,
    /// Whether sending was used to capacity within time interval.
    pub busy: bool,
}

impl LinkIntervalStats {
    /// Statistics at the start of an interval.
    pub open spec fn start_of(interval: Duration, now: Instant) -> LinkIntervalStats {
        LinkIntervalStats { interval, start: now, sent: 0, recved: 0, busy: true }
    }

    /// Starts a new interval.
    pub fn new(interval: Duration, now: Instant) -> (r: Self)
        ensures
            r == LinkIntervalStats::start_of(interval, now),
    {
        LinkIntervalStats { interval, start: now, sent: 0, recved: 0, busy: true }
    }
}

/// Link statistics.
#[derive(Debug, Clone, PartialEq, Eq, PartialOrd, Ord, Hash)]
#[non_exhaustive]
pub struct LinkStats {
    /// Time when link was established.
    pub established: Instant,
    /// Total data sent in bytes.
    pub total_sent: u64,
    /// Total data received in bytes.
    pub total_recved: u64,
    /// Current data sent but not yet acknowledged by remote endpoint in bytes.
    pub sent_unacked: u64,
    /// Current limit of `sent_unacked`.
    pub unacked_limit: u64,
    /// Round trip duration, i.e. ping.
    pub roundtrip: Duration,
    /// Number of times link exceeded timeout.
    pub hangs: usize,
    /// Statistics over time intervals specified in the configuration.
    pub time_stats: Vec<LinkIntervalStats>,
}

/// Reason why a link is not working.
#[derive(Debug, Clone, Copy, PartialEq, Eq, PartialOrd, Ord, Hash, Structural)]
pub enum NotWorkingReason {
    /// Link is new and yet to be tested.
    New,
    /// Link is being disconnected.
    Disconnecting,
    /// Acknowledgement timeout.
    AckTimeout,
    /// Maximum ping was exceeded.
    MaxPingExceeded,
    /// The link test failed and will be retried.
    TestFailed,
}

impl NotWorkingReason {
    /// Text describing this reason.
    pub fn text(&self) -> (r: String)
        ensures
            r@ == match *self {
                NotWorkingReason::New => "new"@,
                NotWorkingReason::Disconnecting => "disconnecting"@,
                NotWorkingReason::AckTimeout => "ack timeout"@,
                NotWorkingReason::MaxPingExceeded => "max ping exceeded"@,
                NotWorkingReason::TestFailed => "test failed"@,
            },
    {
        match self {
            NotWorkingReason::New => "new".to_string(),
            NotWorkingReason::Disconnecting => "disconnecting".to_string(),
            NotWorkingReason::AckTimeout => "ack timeout".to_string(),
            NotWorkingReason::MaxPingExceeded => "max ping exceeded".to_string(),
            NotWorkingReason::TestFailed => "test failed".to_string(),
        }
    }

    /// Category of this reason as an IO error.
    pub fn kind(&self) -> (r: ErrorKind)
        ensures
            r == ErrorKind::TimedOut,
    {
        ErrorKind::TimedOut
    }
}

/// The reason for the disconnection of a link.
#[derive(Debug, Clone, PartialEq, Eq)]
pub enum DisconnectReason {
    /// Sending over the link took too long.
    SendTimeout,
    /// Ping reply was not received in time.
    PingTimeout,
    /// The link was unconfirmed for too long.
    UnconfirmedTimeout,
    /// All links were unconfirmed for too long at the same time.
    AllUnconfirmedTimeout,
    /// An IO error occurred on the link.
    IoError(LinkError),
    /// Locally requested.
    LocallyRequested,
    /// Remotely requested.
    RemotelyRequested,
    /// The connection was closed.
    ConnectionClosed,
    /// The link was rejected by the local link filter.
    LinkFilter,
    /// A link connected to another server than the other links.
    ///
    /// This will occur when the server is restarted while a client is connected.
    ServerIdMismatch,
    /// A protocol error occured on this link.
    ProtocolError(String),
    /// The connection task was terminated.
    TaskTerminated,
    /// The server aborted the connection while no link was working.
    AbortedByServer,
}

impl DisconnectReason {
    /// Returns whether a reconnection should be attempted.
    pub fn should_reconnect(&self) -> (r: bool)
        ensures
            r == (*self is SendTimeout || *self is PingTimeout || *self is UnconfirmedTimeout || *self is IoError),
    {
        matches!(
            self,
            DisconnectReason::SendTimeout
            | DisconnectReason::PingTimeout
            | DisconnectReason::UnconfirmedTimeout
            | DisconnectReason::IoError(_)
        )
    }

    /// Text describing this reason.
    pub open spec fn describe(self) -> Seq<char> {
        match self {
            DisconnectReason::SendTimeout => "send timeout"@,
            DisconnectReason::PingTimeout => "ping timeout"@,
            DisconnectReason::UnconfirmedTimeout => "unconfirmed timeout"@,
            DisconnectReason::AllUnconfirmedTimeout => "all links unconfirmed timeout"@,
            DisconnectReason::IoError(err) => "IO error: "@ + err.describe(),
            DisconnectReason::LocallyRequested => "locally requested"@,
            DisconnectReason::RemotelyRequested => "remotely requested"@,
            DisconnectReason::ConnectionClosed => "connection closed"@,
            DisconnectReason::LinkFilter => "link filter"@,
            DisconnectReason::ServerIdMismatch => "link connected to another server"@,
            DisconnectReason::ProtocolError(err) => "protocol error: "@ + err@,
            DisconnectReason::TaskTerminated => "task terminated"@,
            DisconnectReason::AbortedByServer => "connection aborted by server"@,
        }
    }

    /// Text describing this reason.
    pub fn text(&self) -> (r: String)
        ensures
            r@ == self.describe(),
    {
        match self {
            DisconnectReason::SendTimeout => "send timeout".to_string(),
            DisconnectReason::PingTimeout => "ping timeout".to_string(),
            DisconnectReason::UnconfirmedTimeout => "unconfirmed timeout".to_string(),
            DisconnectReason::AllUnconfirmedTimeout => "all links unconfirmed timeout".to_string(),
            DisconnectReason::IoError(err) => join("IO error: ", err.text().as_str()),
            DisconnectReason::LocallyRequested => "locally requested".to_string(),
            DisconnectReason::RemotelyRequested => "remotely requested".to_string(),
            DisconnectReason::ConnectionClosed => "connection closed".to_string(),
            DisconnectReason::LinkFilter => "link filter".to_string(),
            DisconnectReason::ServerIdMismatch => "link connected to another server".to_string(),
            DisconnectReason::ProtocolError(err) => join("protocol error: ", err.as_str()),
            DisconnectReason::TaskTerminated => "task terminated".to_string(),
            DisconnectReason::AbortedByServer => "connection aborted by server".to_string(),
        }
    }

    /// Category of this reason as an IO error.
    pub fn kind(&self) -> (r: ErrorKind)
        ensures
            r == ErrorKind::ConnectionReset,
    {
        ErrorKind::ConnectionReset
    }
}

} // verus!
