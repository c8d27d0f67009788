//! Aggregated link channel: the front-end of an aggregated connection.

use crate::buf::content;
use crate::cfg::{Cfg, ExchangedCfg};
use crate::error::ErrorKind;
use bytes::Bytes;
use vstd::prelude::*;

verus! {

/// Error receiving from an aggregated link channel.
#[derive(Debug, Clone, Copy, PartialEq, Eq, Structural)]
pub enum RecvError {
    /// All links have failed.
    AllLinksFailed,
    /// A protocol error occured on a link.
    ProtocolError,
    /// A link connected to another server than the other links.
    ServerIdMismatch,
    /// The connection was forcefully terminated.
    TaskTerminated,
    /// The server aborted the connection while no link was working.
    AbortedByServer,
}

impl RecvError {
    /// Text describing this error.
    pub fn text(&self) -> (r: String)
        ensures
            r@ == match *self {
                RecvError::AllLinksFailed => "all links failed"@,
                RecvError::ProtocolError => "protocol error"@,
                RecvError::ServerIdMismatch => "a new link connected to another server"@,
                RecvError::TaskTerminated => "connection forcefully terminated"@,
                RecvError::AbortedByServer => "connection aborted by server"@,
            },
    {
        match self {
            RecvError::AllLinksFailed => "all links failed".to_string(),
            RecvError::ProtocolError => "protocol error".to_string(),
            RecvError::ServerIdMismatch => "a new link connected to another server".to_string(),
            RecvError::TaskTerminated => "connection forcefully terminated".to_string(),
            RecvError::AbortedByServer => "connection aborted by server".to_string(),
        }
    }

    /// Category of this error as an IO error.
    pub fn kind(&self) -> (r: ErrorKind)
        ensures
            r == ErrorKind::ConnectionAborted,
    {
        ErrorKind::ConnectionAborted
    }
}

/// Error sending to an aggregated link channel.
#[derive(Debug, Clone, Copy, PartialEq, Eq, Structural)]
pub enum SendError {
    /// The remote endpoint closed the connection.
    Closed,
    /// The remote endpoint dropped the receiver.
    Dropped,
    /// The connection was shutdown by this endpoint.
    Shutdown,
    /// Data length exceeds receive buffer of remote endpoint.
    DataTooBig,
    /// All links have failed.
    AllLinksFailed,
    /// A protocol error occured on a link.
    ProtocolError,
    /// A link connected to another server than the other links.
    ServerIdMismatch,
    /// The connection task was terminated.
    TaskTerminated,
    /// The server aborted the connection while no link was working.
    AbortedByServer,
}

impl SendError {
    /// Text describing this error.
    pub fn text(&self) -> (r: String)
        ensures
            r@ == match *self {
                SendError::Closed => "closed by remote endpoint"@,
                SendError::Dropped => "dropped by remote endpoint"@,
                SendError::Shutdown => "connection was shut down or closed locally"@,
                SendError::DataTooBig => "data too big for remote endpoint"@,
                SendError::AllLinksFailed => "all links failed"@,
                SendError::ProtocolError => "protocol error"@,
                SendError::ServerIdMismatch => "a new link connected to another server"@,
                SendError::TaskTerminated => "task terminated"@,
                SendError::AbortedByServer => "connection aborted by server"@,
            },
    {
        match self {
            SendError::Closed => "closed by remote endpoint".to_string(),
            SendError::Dropped => "dropped by remote endpoint".to_string(),
            SendError::Shutdown => "connection was shut down or closed locally".to_string(),
            SendError::DataTooBig => "data too big for remote endpoint".to_string(),
            SendError::AllLinksFailed => "all links failed".to_string(),
            SendError::ProtocolError => "protocol error".to_string(),
            SendError::ServerIdMismatch => "a new link connected to another server".to_string(),
            SendError::TaskTerminated => "task terminated".to_string(),
            SendError::AbortedByServer => "connection aborted by server".to_string(),
        }
    }

    /// Category of this error as an IO error.
    pub fn kind(&self) -> (r: ErrorKind)
        ensures
            r == match *self {
                SendError::Closed | SendError::Dropped => ErrorKind::ConnectionReset,
                SendError::Shutdown => ErrorKind::BrokenPipe,
                SendError::DataTooBig => ErrorKind::InvalidData,
                _ => ErrorKind::ConnectionAborted,
            },
    {
        match self {
            SendError::Closed | SendError::Dropped => ErrorKind::ConnectionReset,
            SendError::Shutdown => ErrorKind::BrokenPipe,
            SendError::DataTooBig => ErrorKind::InvalidData,
            _ => ErrorKind::ConnectionAborted,
        }
    }
}

/// The largest size of data that can be sent to a remote endpoint:
/// one byte less than half of its receive buffer, but at least one byte.
pub open spec fn send_size_limit(remote_cfg: ExchangedCfg) -> int {
    if remote_cfg.recv_buffer / 2 < 2 {
        1
    } else {
        remote_cfg.recv_buffer / 2 - 1
    }
}

/// Maximum data size.
pub fn max_send_size(remote_cfg: &ExchangedCfg) -> (r: usize)
    ensures
        r == send_size_limit(*remote_cfg),
{
    let half: usize = remote_cfg.recv_buffer as usize / 2;
    if half < 2 {
        1
    } else {
        half - 1
    }
}

/// Outcome of checking data of the specified length, when the sender has been shut down or not.
pub open spec fn send_outcome(closed: bool, len: nat, remote_cfg: ExchangedCfg) -> Result<(), SendError> {
    if closed {
        Err(SendError::Shutdown)
    } else if len > send_size_limit(remote_cfg) {
        Err(SendError::DataTooBig)
    } else {
        Ok(())
    }
}

/// What the owner of the sending queue has to do next to flush the sender.
#[derive(Debug, Clone, Copy, PartialEq, Eq, Structural)]
pub enum FlushStep {
    /// Nothing, flushing is complete.
    Done,
    /// Enqueue a flush request.
    Request,
    /// Wait for the completion of the flush request.
    Wait,
}

/// State of the sending sink of a channel.
#[derive(Debug, Clone, Copy, PartialEq, Eq, Structural)]
pub struct SinkState {
    /// Whether the sink has been closed.
    pub closed: bool,
    /// Whether a flush request is in progress.
    pub flushing: bool,
}

impl SinkState {
    /// State of a new sink.
    pub fn new() -> (r: Self)
        ensures
            r == (SinkState { closed: false, flushing: false }),
    {
        SinkState { closed: false, flushing: false }
    }

    /// Checks whether the sink may become ready for data.
    pub fn check_ready(&self) -> (r: Result<(), SendError>)
        ensures
            r == if self.closed {
                Err(SendError::Shutdown)
            } else {
                Ok(())
            },
    {
        if self.closed {
            Err(SendError::Shutdown)
        } else {
            Ok(())
        }
    }

    /// Checks whether data may be enqueued for sending.
    pub fn check_send(&self, data: &Bytes, remote_cfg: &ExchangedCfg) -> (r: Result<(), SendError>)
        ensures
            r == send_outcome(self.closed, content(*data).len(), *remote_cfg),
    {
        if self.closed {
            Err(SendError::Shutdown)
        } else {
            check_send(data, remote_cfg)
        }
    }

    /// What has to be done next to flush the sink.
    pub fn flush_step(&self) -> (r: FlushStep)
        ensures
            r == if self.closed {
                FlushStep::Done
            } else if self.flushing {
                FlushStep::Wait
            } else {
                FlushStep::Request
            },
    {
        if self.closed {
            FlushStep::Done
        } else if self.flushing {
            FlushStep::Wait
        } else {
            FlushStep::Request
        }
    }

    /// Notes that a flush request has been enqueued.
    pub fn flush_requested(&mut self)
        ensures
            *final(self) == (SinkState { flushing: true, ..*old(self) }),
    {
        self.flushing = true;
    }

    /// Notes that the flush request has been completed.
    pub fn flush_completed(&mut self)
        ensures
            *final(self) == (SinkState { flushing: false, ..*old(self) }),
    {
        self.flushing = false;
    }

    /// Closes the sink.
    pub fn close(&mut self)
        ensures
            *final(self) == (SinkState { closed: true, ..*old(self) }),
    {
        self.closed = true;
    }
}

/// Checks whether data may be enqueued for sending.
///
/// It must not be bigger than the remote endpoint allows.
pub fn check_send(data: &Bytes, remote_cfg: &ExchangedCfg) -> (r: Result<(), SendError>)
    ensures
        r == send_outcome(false, content(*data).len(), *remote_cfg),
{
    if data.len() > max_send_size(remote_cfg) {
        return Err(SendError::DataTooBig);
    }
    Ok(())
}

/// The smaller of two numbers.
pub open spec fn smaller(a: int, b: int) -> int {
    if a < b {
        a
    } else {
        b
    }
}

/// Number of bytes to take from a buffer of length `len` when writing to the stream.
///
/// A write is split so that no packet exceeds the configured write size and
/// the receive buffer of the remote endpoint.
pub fn write_len(cfg: &Cfg, remote_cfg: &ExchangedCfg, len: usize) -> (r: usize)
    ensures
        r == smaller(len as int, smaller(cfg.io_write_size as int, remote_cfg.recv_buffer as int)),
{
    let recv_buffer: usize = remote_cfg.recv_buffer as usize;
    let max_packet_size: usize = if cfg.io_write_size < recv_buffer {
        cfg.io_write_size
    } else {
        recv_buffer
    };
    if len < max_packet_size {
        len
    } else {
        max_packet_size
    }
}

/// What the receiver gets, when `obtained` is the outcome of waiting for the next packet and `error` the
/// reason why no further data is delivered.
///
/// `None` means that the remote endpoint has sent all its data.
pub fn recv_outcome(obtained: Option<Bytes>, error: Option<RecvError>) -> (r: Result<Option<Bytes>, RecvError>)
    ensures
        r == match (obtained, error) {
            (Some(data), _) => Ok(Some(data)),
            (None, None) => Ok(None),
            (None, Some(err)) => Err(err),
        },
{
    match obtained {
        Some(data) => Ok(Some(data)),
        None => match error {
            None => Ok(None),
            Some(err) => Err(err),
        },
    }
}

/// Part of a received packet that has not been read from the stream.
#[derive(Debug)]
pub struct ReadBuffer {
    /// Unread data.
    pub buf: Bytes,
}

impl ReadBuffer {
    /// Unread data.
    pub open spec fn unread(self) -> Seq<u8> {
        content(self.buf)
    }

    /// Whether the next packet must be received before data can be read.
    pub fn needs_packet(&self) -> (r: bool)
        ensures
            r == (self.unread().len() == 0),
    {
        self.buf.len() == 0
    }

    /// Stores a received packet.
    ///
    /// All data must have been read from the previous packet.
    pub fn fill(&mut self, data: Bytes)
        requires
            old(self).unread().len() == 0,
        ensures
            final(self).unread() == content(data),
    {
        self.buf = data;
    }

    /// Takes all unread data, if there is any.
    pub fn take(&mut self) -> (r: Option<Bytes>)
        ensures
            r is Some <==> old(self).unread().len() > 0,
            r matches Some(data) ==> content(data) == old(self).unread(),
            final(self).unread().len() == 0,
    {
        if self.needs_packet() {
            None
        } else {
            let len: usize = self.buf.len();
            let ghost all = content(self.buf);
            let data: Bytes = self.buf.split_to(len);
            assert(all.take(len as int) =~= all);
            Some(data)
        }
    }

    /// Reads up to `limit` bytes.
    pub fn read(&mut self, limit: usize) -> (r: Bytes)
        ensures
            content(r) == old(self).unread().take(smaller(limit as int, old(self).unread().len() as int)),
            content(r) + final(self).unread() == old(self).unread(),
    {
        let len: usize = if limit < self.buf.len() {
            limit
        } else {
            self.buf.len()
        };
        let ghost all = content(self.buf);
        let data: Bytes = self.buf.split_to(len);
        assert(content(data) + content(self.buf) =~= all);
        data
    }
}

/// Data read from the stream, in whatever amounts, is the data of the packet in order.
pub proof fn law_reads_keep_order(packet: Seq<u8>, first: int, second: int)
    requires
        0 <= first <= packet.len(),
        0 <= second <= packet.len() - first,
    ensures
        packet.take(first) + packet.skip(first).take(second) == packet.take(first + second),
{
    assert(packet.take(first) + packet.skip(first).take(second) =~= packet.take(first + second));
}

/// The largest packet is just below half of the receive buffer of the remote endpoint, so that two of them always fit,
/// but at least one byte can be sent.
pub proof fn law_two_packets_fit(remote_cfg: ExchangedCfg)
    ensures
        send_size_limit(remote_cfg) >= 1,
        send_size_limit(remote_cfg) > 1 ==> 2 * send_size_limit(remote_cfg) + 2 <= remote_cfg.recv_buffer < 2
            * send_size_limit(remote_cfg) + 4,
        remote_cfg.recv_buffer >= 6 ==> send_size_limit(remote_cfg) > 1,
{
}

/// Data is accepted exactly if the sender has not been shut down and it is not larger than what can be sent, and the
/// former is what is reported first.
pub proof fn law_acceptance_of_data(closed: bool, len: nat, remote_cfg: ExchangedCfg)
    ensures
        send_outcome(closed, len, remote_cfg) is Ok <==> !closed && len <= send_size_limit(remote_cfg),
        closed ==> send_outcome(closed, len, remote_cfg) == Err::<(), SendError>(SendError::Shutdown),
        !closed && len > send_size_limit(remote_cfg) ==> send_outcome(closed, len, remote_cfg) == Err::<(), SendError>(
            SendError::DataTooBig,
        ),
{
}

/// The smaller of two numbers is one of them and exceeds none.
pub proof fn law_smaller(a: int, b: int)
    ensures
        smaller(a, b) <= a,
        smaller(a, b) <= b,
        smaller(a, b) == a || smaller(a, b) == b,
{
}

} // verus!
