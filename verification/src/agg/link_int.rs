//! Internal link data.

use crate::agg::stats::{law_unrecorded_inverts_recorded, LinkStatistican, StatsState};
use crate::buf::{bytes_as_slice, content};
use crate::cfg::{Cfg, ExchangedCfg, LinkCfg};
use crate::control::{Direction, NotWorkingReason};
use crate::error::LinkError;
use crate::id::{ConnId, LinkId};
use crate::msg::{LinkMsg, MsgView};
use crate::seq::SeqNum;
use crate::time::{Duration, Instant};
use bytes::Bytes;
use std::collections::VecDeque;
use std::sync::Arc;
use vstd::prelude::*;

verus! {

/// Reason for a flush deadline.
#[derive(Debug, Clone, Copy, PartialEq, Eq, Structural)]
pub enum FlushReason {
    /// The link has been idle for a while.
    DataIdle,
    /// Data has not been flushed for a while.
    DataInterval,
    /// Acknowledgements have not been flushed for a while.
    AckInterval,
}

/// Optional deadline.
#[derive(Debug, Clone, Copy, PartialEq, Eq)]
pub struct Deadline {
    /// Point in time, in nanoseconds, and reason of the deadline.
    pub due: Option<(u128, FlushReason)>,
}

impl Deadline {
    /// Unset deadline.
    pub fn new() -> (r: Self)
        ensures
            r.due is None,
    {
        Deadline { due: None }
    }

    /// Deadline after requiring it to be no later than the specified one.
    pub open spec fn required(self, reason: FlushReason, deadline: u128) -> Deadline {
        match self.due {
            Some((existing, _)) if existing <= deadline => self,
            _ => Deadline { due: Some((deadline, reason)) },
        }
    }

    /// Require specified deadline.
    pub fn require(&mut self, reason: FlushReason, deadline: u128)
        ensures
            *final(self) == old(self).required(reason, deadline),
    {
        let replace: bool = match self.due {
            None => true,
            Some((existing, _)) => deadline < existing,
        };
        if replace {
            self.due = Some((deadline, reason));
        }
    }
}

/// Link event.
#[derive(Debug)]
pub enum LinkIntEvent {
    /// Link has become ready for sending.
    TxReady,
    /// Link has been flushed.
    TxFlushed,
    /// Sending over the link has failed.
    TxError(LinkError),
    /// A message has been received.
    Rx {
        /// Message.
        msg: LinkMsg,
        /// Data, if data message.
        data: Option<Bytes>,
    },
    /// Receiving over the link has failed.
    RxError(LinkError),
    /// Link now requires flushing.
    FlushRequired,
    /// Local disconnection request.
    Disconnect,
    /// Link blocked status has changed to the specified status.
    BlockedChanged(bool),
    /// Link configuration changed to the specified configuration.
    LinkCfgChanged(Option<LinkCfg>),
}

/// Link test status.
#[derive(Clone, Copy, Debug, PartialEq, Eq, Structural)]
pub enum LinkTest {
    /// Link is not being tested.
    Inactive,
    /// Link test is in progress.
    InProgress,
    /// Link test failed.
    Failed(Instant),
}

/// Initiator of disconnection.
#[derive(Clone, Copy, Debug, PartialEq, Eq, Structural)]
pub enum DisconnectInitiator {
    /// Locally initiated disconnection in progress.
    Local,
    /// Remotely initiated disconnection in progress.
    Remote,
}

/// What the owner of the transmit sink has to do next.
#[derive(Clone, Copy, Debug, PartialEq, Eq, Structural)]
pub enum TxStep {
    /// Nothing.
    Wait,
    /// Flush the sink.
    Flush,
    /// Wait for the sink to become ready.
    Ready,
}

/// Outcome of the transmit sink becoming ready.
#[derive(Debug)]
pub enum TxReady {
    /// Data must be handed to the sink.
    SendData(Bytes),
    /// An event occurred.
    Event(LinkIntEvent),
}

/// Item obtained from the receive stream.
#[derive(Debug)]
pub enum RxItem {
    /// A packet.
    Packet(Bytes),
    /// An error.
    Error(LinkError),
    /// The end of the stream.
    End,
}

/// Test data to send over a link.
#[derive(Clone, Copy, Debug, PartialEq, Eq, Structural)]
pub struct TestRequest {
    /// Maximum size of one packet.
    pub packet_size: usize,
    /// Amount of data to send.
    pub data_limit: usize,
}

/// Identification and configuration of a link.
#[derive(Debug)]
pub struct LinkInfo {
    /// Connection id.
    pub conn_id: ConnId,
    /// Link id.
    pub link_id: LinkId,
    /// Direction of link.
    pub direction: Direction,
    /// Connection configuration.
    pub cfg: Arc<Cfg>,
    /// Configuration of remote endpoint.
    pub remote_cfg: ExchangedCfg,
    /// Link-specific configuration.
    pub link_cfg: Option<LinkCfg>,
    /// User data provided by remote endpoint.
    pub remote_user_data: Vec<u8>,
}

/// What was recorded of a link before a message was placed for transmission.
#[derive(Clone, Copy, Debug)]
pub struct Unsent {
    /// Number of bytes of the message and its data.
    pub len: u64,
    /// When last message had been sent.
    pub tx_last_msg: Option<Instant>,
    /// Number of bytes sent that were not yet flushed.
    pub txed_unflushed: u64,
    /// Whether flushing was being performed.
    pub tx_flushing: bool,
    /// Number of acks sent since last flush.
    pub txed_acks_unflushed: usize,
    /// When oldest unflushed ack was sent.
    pub txed_first_unflushed_ack: Option<Instant>,
    /// Sequence number of sent and not yet acknowledged packet.
    pub txed_unacked: Option<SeqNum>,
}

/// What is waiting for transmission over a link.
#[derive(Debug)]
pub struct LinkTx {
    /// Message to hand to the transmit sink.
    pub tx_msg: Option<LinkMsg>,
    /// Data to transmit next.
    pub tx_data: Option<Bytes>,
    /// Test data to hand to the transmit sink as long as it is ready.
    pub tx_test: Option<TestRequest>,
    /// Last transmit error.
    pub tx_error: Option<LinkError>,
    /// Whether the transmit sink failed previously.
    pub tx_failed: bool,
    /// Since when the transmit sink is being polled for readyness.
    pub tx_polling: Option<Instant>,
    /// Whether the transmit sink returned pending status when polled for readyness.
    pub tx_pending: bool,
    /// What was recorded before the last message was placed for transmission.
    pub tx_unsent: Option<Unsent>,
}

/// What has been sent over a link and must still be flushed.
#[derive(Debug)]
pub struct LinkFlush {
    /// When last message has been sent.
    pub tx_last_msg: Option<Instant>,
    /// Since when the transmit part of the link is idle.
    pub tx_idle_since: Option<Instant>,
    /// Number of bytes sent that are not yet flushed.
    pub txed_unflushed: u64,
    /// Performing flushing of the transmit sink.
    pub tx_flushing: bool,
    /// When a data message was first sent over link after it was flushed.
    pub txed_first_unflushed_data: Option<Instant>,
    /// Number of acks sent since last flush.
    pub txed_acks_unflushed: usize,
    /// When oldest unflushed ack was sent.
    pub txed_first_unflushed_ack: Option<Instant>,
}

/// What has been sent over a link and must still be acknowledged.
#[derive(Debug)]
pub struct LinkUnacked {
    /// Sequence number of sent and not yet acknowledged packet.
    pub txed_unacked: Option<SeqNum>,
    /// Number of bytes sent for which no acknowledgement has been received yet.
    pub txed_unacked_data: u64,
    /// Limit of sent unacknowledged bytes.
    pub txed_unacked_data_limit: u64,
    /// Sequence number when limit of sent unacknowledged bytes was last increased.
    pub txed_unacked_data_limit_increased: Option<SeqNum>,
    /// Times `txed_unacked_data_limit` was increased consecutively.
    pub txed_unacked_data_limit_increased_consecutively: usize,
}

/// Roundtrip time measurement of a link.
#[derive(Clone, Copy, Debug)]
pub struct LinkPinging {
    /// Last measured roundtrip duration.
    pub roundtrip: Duration,
    /// Number of reliable roundtrip estimates.
    pub roundtrip_estimates: Option<usize>,
    /// When last ping has been performed.
    pub last_ping: Option<Instant>,
    /// When current (not yet answered) ping has been sent.
    pub current_ping_sent: Option<Instant>,
    /// Send ping when link becomes ready for sending.
    pub send_ping: bool,
    /// Send ping reply when link becomes ready for sending.
    pub send_pong: bool,
}

/// Working status of a link.
#[derive(Clone, Copy, Debug)]
pub struct LinkStatus {
    /// Whether the Accepeted message needs to be sent.
    pub needs_tx_accepted: bool,
    /// Link blocked by user.
    pub blocked: bool,
    /// Blocked status last sent to remote endpoint.
    pub blocked_sent: bool,
    /// Link blocked by remote endpoint.
    pub remotely_blocked: bool,
    /// Since when the link is unconfirmed, i.e. it has not been tested or message
    /// acknowledgement timed out.
    pub unconfirmed: Option<(Instant, NotWorkingReason)>,
    /// Link test status.
    pub test: LinkTest,
    /// Initiator of disconnection.
    pub disconnecting: Option<DisconnectInitiator>,
    /// Goodbye message has been sent.
    pub goodbye_sent: bool,
}

/// Internal link data.
///
/// The transmit sink and the receive stream belong to the owner of this link, which performs
/// the requested operations and reports their outcomes.
#[derive(Debug)]
pub struct LinkInt {
    /// Identification and configuration.
    pub info: LinkInfo,
    /// What is waiting for transmission.
    pub tx: LinkTx,
    /// What must still be flushed.
    pub flush: LinkFlush,
    /// What must still be acknowledged.
    pub unacked: LinkUnacked,
    /// Roundtrip time measurement.
    pub ping: LinkPinging,
    /// Working status.
    pub status: LinkStatus,
    /// Received data message, when waiting for the corresponding data packet.
    pub rxed_data_msg: Option<LinkMsg>,
    /// Acks queued for sending.
    pub tx_ack_queue: VecDeque<SeqNum>,
    /// Link statistics calculator.
    pub stats: LinkStatistican,
}

/// Mathematical model of a link.
#[verifier::ext_equal]
pub struct LinkState {
    /// Identification and configuration.
    pub info: LinkInfo,
    /// What is waiting for transmission.
    pub tx: LinkTx,
    /// What must still be flushed.
    pub flush: LinkFlush,
    /// What must still be acknowledged.
    pub unacked: LinkUnacked,
    /// Roundtrip time measurement.
    pub ping: LinkPinging,
    /// Working status.
    pub status: LinkStatus,
    /// Received data message, when waiting for the corresponding data packet.
    pub rxed_data_msg: Option<LinkMsg>,
    /// Acks queued for sending.
    pub acks: Seq<SeqNum>,
    /// Link statistics.
    pub stats: StatsState,
}

impl View for LinkInt {
    type V = LinkState;

    open spec fn view(&self) -> LinkState {
        LinkState {
            info: self.info,
            tx: self.tx,
            flush: self.flush,
            unacked: self.unacked,
            ping: self.ping,
            status: self.status,
            rxed_data_msg: self.rxed_data_msg,
            acks: self.tx_ack_queue@,
            stats: self.stats@,
        }
    }
}

/// Sum of two amounts, capped at the largest representable one.
pub open spec fn capped_sum(a: u64, b: int) -> u64 {
    if a + b > u64::MAX {
        u64::MAX
    } else {
        (a + b) as u64
    }
}

/// The instant that is set, or the specified one.
pub open spec fn or_now(t: Option<Instant>, now: Instant) -> Option<Instant> {
    match t {
        Some(_) => t,
        None => Some(now),
    }
}

/// Length of optional data.
pub open spec fn data_len(data: Option<Bytes>) -> nat {
    match data {
        Some(data) => content(data).len(),
        None => 0,
    }
}

/// Whether sending a message of this kind starts flushing of the link.
pub open spec fn flushes(msg: LinkMsg) -> bool {
    ||| msg is Accepted
    ||| msg is Ping
    ||| msg is Pong
    ||| msg is SendFinish
    ||| msg is ReceiveClose
    ||| msg is ReceiveFinish
    ||| msg is Goodbye
}

impl LinkState {
    /// State of a new link.
    pub open spec fn initial(
        link_id: LinkId,
        conn_id: ConnId,
        cfg: Arc<Cfg>,
        remote_cfg: ExchangedCfg,
        link_cfg: Option<LinkCfg>,
        direction: Direction,
        roundtrip: Duration,
        remote_user_data: Vec<u8>,
        now: Instant,
    ) -> LinkState {
        LinkState {
            info: LinkInfo {
                conn_id,
                link_id,
                direction,
                cfg,
                remote_cfg,
                link_cfg,
                remote_user_data,
            },
            tx: LinkTx {
                tx_msg: None,
                tx_data: None,
                tx_test: None,
                tx_error: None,
                tx_failed: false,
                tx_polling: None,
                tx_pending: false,
                tx_unsent: None,
            },
            flush: LinkFlush {
                tx_last_msg: None,
                tx_idle_since: None,
                txed_unflushed: 0,
                tx_flushing: false,
                txed_first_unflushed_data: None,
                txed_acks_unflushed: 0,
                txed_first_unflushed_ack: None,
            },
            unacked: LinkUnacked {
                txed_unacked: None,
                txed_unacked_data: 0,
                txed_unacked_data_limit: (match link_cfg {
                    Some(link_cfg) => link_cfg.unacked_init,
                    None => cfg.link.unacked_init,
                }) as u64,
                txed_unacked_data_limit_increased: None,
                txed_unacked_data_limit_increased_consecutively: 45,
            },
            ping: LinkPinging {
                roundtrip,
                roundtrip_estimates: Some(0),
                last_ping: None,
                current_ping_sent: None,
                send_ping: false,
                send_pong: false,
            },
            status: LinkStatus {
                needs_tx_accepted: direction == Direction::Incoming,
                blocked: false,
                blocked_sent: false,
                remotely_blocked: false,
                unconfirmed: None,
                test: LinkTest::Inactive,
                disconnecting: None,
                goodbye_sent: false,
            },
            rxed_data_msg: None,
            acks: Seq::empty(),
            stats: StatsState::initial(cfg.stats_intervals@, roundtrip, now),
        }
    }

    /// Invariant of a link.
    ///
    /// Its configuration is valid, something can only be waiting for transmission while the transmit
    /// sink is being polled and a link is only tested while it is unconfirmed.
    pub open spec fn wf(self) -> bool {
        &&& self.info.cfg.wf()
        &&& (self.info.link_cfg matches Some(link_cfg) ==> link_cfg.wf())
        &&& (self.tx.tx_polling is None ==> {
            &&& self.tx.tx_data is None
            &&& self.tx.tx_msg is None
            &&& self.tx.tx_test is None
        })
        &&& (self.status.test != LinkTest::Inactive ==> self.status.unconfirmed is Some)
        &&& (self.tx.tx_msg matches Some(msg) ==> !(msg is Welcome) && !(msg is Connect))
        &&& (self.rxed_data_msg matches Some(msg) ==> msg is Data)
        &&& self.stats.wf()
    }

    /// Link-specific configuration.
    pub open spec fn eff_cfg(self) -> LinkCfg {
        match self.info.link_cfg {
            Some(link_cfg) => link_cfg,
            None => self.info.cfg.link,
        }
    }

    /// Error that must be reported before any other event.
    pub open spec fn pending_error(self) -> Option<LinkError> {
        match self.tx.tx_error {
            Some(err) => Some(err),
            None => if self.tx.tx_failed {
                Some(LinkError::Failed)
            } else {
                None
            },
        }
    }

    /// State after the last transmit error has been taken.
    pub open spec fn error_taken(self) -> LinkState {
        LinkState { tx: LinkTx { tx_error: None, ..self.tx }, ..self }
    }

    /// State after the transmit sink has failed.
    pub open spec fn failed(self) -> LinkState {
        LinkState { tx: LinkTx { tx_failed: true, ..self.tx }, ..self }
    }

    /// State after flushing the transmit sink has succeeded or failed.
    pub open spec fn flush_ended(self, success: bool) -> LinkState {
        if success {
            LinkState {
                flush: LinkFlush { tx_flushing: false, txed_first_unflushed_data: None, ..self.flush },
                ..self
            }
        } else {
            self.failed()
        }
    }

    /// State after polling the transmit sink for readyness.
    pub open spec fn polled(self, pending: bool) -> LinkState {
        LinkState { tx: LinkTx { tx_pending: pending, ..self.tx }, ..self }
    }

    /// State after the transmit sink has become ready or failed to do so.
    pub open spec fn ready_ended(self, success: bool, now: Instant) -> LinkState {
        if !success {
            self.failed()
        } else if self.tx.tx_data is Some {
            LinkState {
                tx: LinkTx { tx_data: None, ..self.tx },
                flush: LinkFlush {
                    txed_first_unflushed_data: or_now(self.flush.txed_first_unflushed_data, now),
                    ..self.flush
                },
                ..self
            }
        } else {
            LinkState { tx: LinkTx { tx_polling: None, ..self.tx }, ..self }
        }
    }

    /// State after the message for the transmit sink has been taken.
    pub open spec fn msg_taken(self) -> LinkState {
        LinkState { tx: LinkTx { tx_msg: None, ..self.tx }, ..self }
    }

    /// What is recorded of the link before a message of the specified length is placed for transmission.
    pub open spec fn unsent(self, len: u64) -> Unsent {
        Unsent {
            len,
            tx_last_msg: self.flush.tx_last_msg,
            txed_unflushed: self.flush.txed_unflushed,
            tx_flushing: self.flush.tx_flushing,
            txed_acks_unflushed: self.flush.txed_acks_unflushed,
            txed_first_unflushed_ack: self.flush.txed_first_unflushed_ack,
            txed_unacked: self.unacked.txed_unacked,
        }
    }

    /// State after forgetting that the last message has been sent.
    pub open spec fn not_sent(self) -> LinkState {
        match self.tx.tx_unsent {
            Some(unsent) => LinkState {
                flush: LinkFlush {
                    tx_last_msg: unsent.tx_last_msg,
                    txed_unflushed: unsent.txed_unflushed,
                    tx_flushing: unsent.tx_flushing,
                    txed_acks_unflushed: unsent.txed_acks_unflushed,
                    txed_first_unflushed_ack: unsent.txed_first_unflushed_ack,
                    ..self.flush
                },
                unacked: LinkUnacked { txed_unacked: unsent.txed_unacked, ..self.unacked },
                stats: self.stats.unrecorded(unsent.len),
                tx: LinkTx { tx_unsent: None, ..self.tx },
                ..self
            },
            None => self,
        }
    }

    /// State after the transmit sink has refused a message, which then counts as not sent.
    pub open spec fn msg_refused(self, err: LinkError) -> LinkState {
        let l = self.not_sent();
        LinkState { tx: LinkTx { tx_error: Some(err), tx_failed: true, tx_data: None, ..l.tx }, ..l }
    }

    /// State after the request to send test data has been taken.
    pub open spec fn test_taken(self) -> LinkState {
        LinkState { tx: LinkTx { tx_test: None, ..self.tx }, ..self }
    }

    /// State after the transmit sink has failed while sending test data.
    pub open spec fn test_failed(self, err: LinkError) -> LinkState {
        LinkState { tx: LinkTx { tx_error: Some(err), tx_failed: true, ..self.tx }, ..self }
    }

    /// Whether link is blocked locally or remotely.
    pub open spec fn is_blocked(self) -> bool {
        self.status.blocked || self.status.remotely_blocked
    }

    /// Whether unacknowledged sent data is under the limit.
    pub open spec fn is_sendable(self) -> bool {
        self.unacked.txed_unacked_data < self.unacked.txed_unacked_data_limit
    }

    /// Whether flushing is required.
    pub open spec fn needs_flush(self) -> bool {
        self.flush.txed_first_unflushed_data is Some && !self.flush.tx_flushing
    }

    /// Whether flushing is required because of sent acks.
    pub open spec fn need_ack_flush(self) -> bool {
        self.flush.txed_acks_unflushed != 0
    }

    /// State after requesting to report again when the link becomes ready.
    pub open spec fn reporting_ready(self, now: Instant) -> LinkState {
        LinkState { tx: LinkTx { tx_polling: Some(now), ..self.tx }, ..self }
    }

    /// State after starting to flush the link.
    pub open spec fn flushing(self, now: Instant) -> LinkState {
        LinkState {
            flush: LinkFlush {
                txed_acks_unflushed: 0,
                txed_first_unflushed_ack: None,
                txed_unflushed: 0,
                tx_flushing: true,
                ..self.flush
            },
            tx: LinkTx { tx_polling: Some(now), ..self.tx },
            ..self
        }
    }

    /// State after accounting for a message that requires or is an acknowledgement.
    pub open spec fn accounted(self, msg: LinkMsg, now: Instant) -> LinkState {
        match msg {
            LinkMsg::Ack { .. } | LinkMsg::Consumed { .. } => LinkState {
                flush: LinkFlush {
                    txed_acks_unflushed: if self.flush.txed_acks_unflushed < usize::MAX {
                        (self.flush.txed_acks_unflushed + 1) as usize
                    } else {
                        self.flush.txed_acks_unflushed
                    },
                    txed_first_unflushed_ack: or_now(self.flush.txed_first_unflushed_ack, now),
                    ..self.flush
                },
                ..self
            },
            LinkMsg::Data { seq } => LinkState {
                unacked: LinkUnacked {
                    txed_unacked: match self.unacked.txed_unacked {
                        Some(unacked) if seq.precedes(unacked) => self.unacked.txed_unacked,
                        _ => Some(seq),
                    },
                    ..self.unacked
                },
                ..self
            },
            _ => self,
        }
    }

    /// State after recording that bytes have been sent.
    pub open spec fn bytes_sent(self, len: int, now: Instant) -> LinkState {
        LinkState {
            flush: LinkFlush {
                tx_last_msg: Some(now),
                txed_unflushed: capped_sum(self.flush.txed_unflushed, len),
                ..self.flush
            },
            stats: self.stats.recorded(len as u64, 0),
            ..self
        }
    }

    /// State after placing a message and data for transmission.
    pub open spec fn placed(self, msg: LinkMsg, data: Option<Bytes>, unsent: Unsent, now: Instant) -> LinkState {
        LinkState {
            tx: LinkTx {
                tx_polling: Some(now),
                tx_msg: Some(msg),
                tx_data: data,
                tx_unsent: Some(unsent),
                ..self.tx
            },
            flush: LinkFlush { tx_idle_since: None, ..self.flush },
            ..self
        }
    }

    /// State after handing a message to the transmit sink, before any flushing.
    pub open spec fn msg_started(self, msg: LinkMsg, data: Option<Bytes>, now: Instant) -> LinkState {
        let len = (msg.wire_len() + data_len(data)) as int;
        self.accounted(msg, now).bytes_sent(len, now).placed(msg, data, self.unsent(len as u64), now)
    }

    /// Whether sending a message starts flushing of the link, either because of the kind
    /// of message or because too much unflushed data has accumulated.
    pub open spec fn send_flushes(self, msg: LinkMsg, data: Option<Bytes>) -> bool {
        &&& !self.tx.tx_failed
        &&& {
            ||| flushes(msg)
            ||| (self.eff_cfg().unflushed_limit matches Some(limit) && capped_sum(
                self.flush.txed_unflushed,
                (msg.wire_len() + data_len(data)) as int,
            ) >= limit)
        }
    }

    /// State after sending a message over the link, optionally followed by data.
    pub open spec fn sent(self, msg: LinkMsg, data: Option<Bytes>, now: Instant) -> LinkState {
        if self.tx.tx_failed {
            LinkState {
                tx: LinkTx {
                    tx_error: match self.tx.tx_error {
                        Some(_) => self.tx.tx_error,
                        None => Some(LinkError::Failed),
                    },
                    ..self.tx
                },
                ..self
            }
        } else if self.send_flushes(msg, data) {
            self.msg_started(msg, data, now).flushing(now)
        } else {
            self.msg_started(msg, data, now)
        }
    }

    /// State after requesting to send test data over the link.
    pub open spec fn test_data_requested(self, request: TestRequest, now: Instant) -> LinkState {
        let s = LinkState {
            tx: LinkTx { tx_polling: Some(now), ..self.tx },
            flush: LinkFlush {
                txed_first_unflushed_data: or_now(self.flush.txed_first_unflushed_data, now),
                tx_idle_since: None,
                ..self.flush
            },
            ..self
        };
        if self.tx.tx_failed {
            LinkState { tx: LinkTx { tx_error: match self.tx.tx_error {
                    Some(_) => self.tx.tx_error,
                    None => Some(LinkError::Failed),
                }, ..s.tx }, ..s }
        } else if request.data_limit == 0 {
            s
        } else {
            LinkState { tx: LinkTx { tx_test: Some(request), ..s.tx }, ..s }
        }
    }

    /// State after marking the send part of the link as idle.
    pub open spec fn idle(self, now: Instant) -> LinkState {
        LinkState {
            flush: LinkFlush { tx_idle_since: Some(now), ..self.flush },
            stats: self.stats.idle(),
            ..self
        }
    }

    /// State after resetting statistics and limits because the link is unconfirmed.
    ///
    /// The amount of unacknowledged data the link may have is halved.
    pub open spec fn reset_limits(self) -> LinkState {
        LinkState {
            unacked: LinkUnacked {
                txed_unacked_data_limit: if self.unacked.txed_unacked_data_limit / 2 < 128 {
                    128
                } else {
                    self.unacked.txed_unacked_data_limit / 2
                },
                txed_unacked_data_limit_increased: None,
                txed_unacked_data_limit_increased_consecutively: 0,
                ..self.unacked
            },
            stats: self.stats.hung(),
            ..self
        }
    }

    /// State after publishing link statistics.
    pub open spec fn stats_published(self, now: Instant) -> LinkState {
        LinkState {
            stats: (StatsState {
                sent_unacked: self.unacked.txed_unacked_data,
                unacked_limit: self.unacked.txed_unacked_data_limit,
                roundtrip: self.ping.roundtrip,
                ..self.stats
            }).published(now),
            ..self
        }
    }

    /// The deadline for flushing the link.
    ///
    /// Unflushed data is flushed when the link has been idle for a while or the flush interval
    /// has passed. Unflushed acknowledgements are flushed when their flush interval has passed.
    pub open spec fn flush_deadline(self) -> Deadline {
        let cfg = self.eff_cfg();
        let none = Deadline { due: None };
        let idle = match (self.flush.txed_first_unflushed_data, self.flush.tx_idle_since) {
            (Some(_), Some(idle_since)) if !self.flush.tx_flushing => none.required(
                FlushReason::DataIdle,
                idle_since.plus(cfg.flush_delay),
            ),
            _ => none,
        };
        let interval = match (self.flush.txed_first_unflushed_data, cfg.flush_interval) {
            (Some(first_sent), Some(interval)) if !self.flush.tx_flushing => idle.required(
                FlushReason::DataInterval,
                first_sent.plus(interval),
            ),
            _ => idle,
        };
        match (self.flush.txed_first_unflushed_ack, cfg.ack_flush_interval) {
            (Some(first_sent), Some(ack_interval)) => interval.required(
                FlushReason::AckInterval,
                first_sent.plus(ack_interval),
            ),
            _ => interval,
        }
    }

    /// What the owner of the transmit sink has to do next.
    pub open spec fn tx_step(self) -> TxStep {
        if self.tx.tx_polling is None {
            TxStep::Wait
        } else if self.flush.tx_flushing && self.tx.tx_data is None {
            TxStep::Flush
        } else {
            TxStep::Ready
        }
    }
}

impl LinkInt {
    /// Creates new internal link data.
    pub fn new(
        conn_id: ConnId,
        cfg: Arc<Cfg>,
        remote_cfg: ExchangedCfg,
        link_cfg: Option<LinkCfg>,
        direction: Direction,
        roundtrip: Duration,
        remote_user_data: Vec<u8>,
        now: Instant,
    ) -> (r: Self)
        requires
            cfg.wf(),
            link_cfg matches Some(link_cfg) ==> link_cfg.wf(),
        ensures
            r@ == LinkState::initial(
                r.info.link_id,
                conn_id,
                cfg,
                remote_cfg,
                link_cfg,
                direction,
                roundtrip,
                remote_user_data,
                now,
            ),
            r@.wf(),
    {
        let stats: LinkStatistican = LinkStatistican::new(&cfg.stats_intervals, roundtrip, now);
        let txed_unacked_data_limit: u64 = match &link_cfg {
            Some(link_cfg) => link_cfg.unacked_init as u64,
            None => cfg.link.unacked_init as u64,
        };
        LinkInt {
            info: LinkInfo {
                conn_id,
                link_id: LinkId::generate(),
                direction,
                cfg,
                remote_cfg,
                link_cfg,
                remote_user_data,
            },
            tx: LinkTx {
                tx_msg: None,
                tx_data: None,
                tx_test: None,
                tx_error: None,
                tx_failed: false,
                tx_polling: None,
                tx_pending: false,
                tx_unsent: None,
            },
            flush: LinkFlush {
                tx_last_msg: None,
                tx_idle_since: None,
                txed_unflushed: 0,
                tx_flushing: false,
                txed_first_unflushed_data: None,
                txed_acks_unflushed: 0,
                txed_first_unflushed_ack: None,
            },
            unacked: LinkUnacked {
                txed_unacked: None,
                txed_unacked_data: 0,
                txed_unacked_data_limit,
                txed_unacked_data_limit_increased: None,
                txed_unacked_data_limit_increased_consecutively: 45,
            },
            ping: LinkPinging {
                roundtrip,
                roundtrip_estimates: Some(0),
                last_ping: None,
                current_ping_sent: None,
                send_ping: false,
                send_pong: false,
            },
            status: LinkStatus {
                needs_tx_accepted: direction == Direction::Incoming,
                blocked: false,
                blocked_sent: false,
                remotely_blocked: false,
                unconfirmed: None,
                test: LinkTest::Inactive,
                disconnecting: None,
                goodbye_sent: false,
            },
            rxed_data_msg: None,
            tx_ack_queue: VecDeque::new(),
            stats,
        }
    }

    /// Link-specific configuration.
    pub fn link_cfg(&self) -> (r: &LinkCfg)
        ensures
            *r == self@.eff_cfg(),
    {
        match &self.info.link_cfg {
            Some(link_cfg) => link_cfg,
            None => &self.info.cfg.link,
        }
    }

    /// Update link-specific configuration.
    pub fn update_link_cfg(&mut self, link_cfg: Option<LinkCfg>)
        ensures
            final(self)@ == (LinkState { info: LinkInfo { link_cfg, ..old(self)@.info }, ..old(self)@ }),
    {
        self.info.link_cfg = link_cfg;
    }

    /// Checks whether the sink has failed.
    pub fn check_tx_failed(&self) -> (r: Result<(), LinkError>)
        ensures
            r == if self.tx.tx_failed {
                Err(LinkError::Failed)
            } else {
                Ok(())
            },
    {
        if self.tx.tx_failed {
            Err(LinkError::Failed)
        } else {
            Ok(())
        }
    }

    /// Takes the error that must be reported before any other event.
    pub fn pending_error(&mut self) -> (r: Option<LinkError>)
        ensures
            r == old(self)@.pending_error(),
            final(self)@ == old(self)@.error_taken(),
    {
        match self.tx.tx_error.take() {
            Some(err) => Some(err),
            None => match self.check_tx_failed() {
                Err(err) => Some(err),
                Ok(()) => None,
            },
        }
    }

    /// The deadline for flushing the link.
    pub fn flush_deadline(&self) -> (r: Deadline)
        ensures
            r == self@.flush_deadline(),
    {
        let mut deadline: Deadline = Deadline::new();
        match self.flush.txed_first_unflushed_data {
            Some(first_sent) if !self.flush.tx_flushing => {
                if let Some(idle_since) = self.flush.tx_idle_since {
                    deadline.require(FlushReason::DataIdle, idle_since.after(self.link_cfg().flush_delay));
                }
                if let Some(interval) = self.link_cfg().flush_interval {
                    deadline.require(FlushReason::DataInterval, first_sent.after(interval));
                }
            },
            _ => {},
        }
        if let Some(first_sent) = self.flush.txed_first_unflushed_ack {
            if let Some(interval) = self.link_cfg().ack_flush_interval {
                deadline.require(FlushReason::AckInterval, first_sent.after(interval));
            }
        }
        deadline
    }

    /// What the owner of the transmit sink has to do next.
    pub fn tx_step(&self) -> (r: TxStep)
        ensures
            r == self@.tx_step(),
    {
        if self.tx.tx_polling.is_none() {
            TxStep::Wait
        } else if self.flush.tx_flushing && self.tx.tx_data.is_none() {
            TxStep::Flush
        } else {
            TxStep::Ready
        }
    }

    /// Handles the outcome of flushing the transmit sink.
    pub fn on_flushed(&mut self, outcome: Result<(), LinkError>) -> (r: LinkIntEvent)
        ensures
            final(self)@ == old(self)@.flush_ended(outcome is Ok),
            r == match outcome {
                Ok(()) => LinkIntEvent::TxFlushed,
                Err(err) => LinkIntEvent::TxError(err),
            },
            old(self)@.wf() ==> final(self)@.wf(),
    {
        match outcome {
            Ok(()) => {
                self.flush.tx_flushing = false;
                self.flush.txed_first_unflushed_data = None;
                LinkIntEvent::TxFlushed
            },
            Err(err) => {
                self.tx.tx_failed = true;
                LinkIntEvent::TxError(err)
            },
        }
    }

    /// Records whether the transmit sink returned pending status when polled for readyness.
    pub fn on_polled(&mut self, pending: bool)
        ensures
            final(self)@ == old(self)@.polled(pending),
    {
        self.tx.tx_pending = pending;
    }

    /// Handles the outcome of waiting for the transmit sink to become ready.
    ///
    /// If data is waiting to be sent, it must be handed to the sink.
    /// Otherwise the link is ready for sending a message.
    pub fn on_ready(&mut self, outcome: Result<(), LinkError>, now: Instant) -> (r: TxReady)
        requires
            old(self)@.tx.tx_msg is None,
            old(self)@.tx.tx_test is None,
        ensures
            final(self)@ == old(self)@.ready_ended(outcome is Ok, now),
            r == match outcome {
                Err(err) => TxReady::Event(LinkIntEvent::TxError(err)),
                Ok(()) => match old(self)@.tx.tx_data {
                    Some(data) => TxReady::SendData(data),
                    None => TxReady::Event(LinkIntEvent::TxReady),
                },
            },
            old(self)@.wf() ==> final(self)@.wf(),
    {
        match outcome {
            Ok(()) => match self.tx.tx_data.take() {
                Some(data) => {
                    if self.flush.txed_first_unflushed_data.is_none() {
                        self.flush.txed_first_unflushed_data = Some(now);
                    }
                    TxReady::SendData(data)
                },
                None => {
                    self.tx.tx_polling = None;
                    TxReady::Event(LinkIntEvent::TxReady)
                },
            },
            Err(err) => {
                self.tx.tx_failed = true;
                TxReady::Event(LinkIntEvent::TxError(err))
            },
        }
    }

    /// Handles that the transmit sink refused the data that was handed to it.
    pub fn on_data_refused(&mut self, err: LinkError) -> (r: LinkIntEvent)
        ensures
            r == LinkIntEvent::TxError(err),
            final(self)@ == old(self)@.failed(),
    {
        self.tx.tx_failed = true;
        LinkIntEvent::TxError(err)
    }

    /// Takes the message to hand to the transmit sink, in encoded form.
    pub fn take_msg(&mut self) -> (r: Option<Bytes>)
        requires
            old(self)@.wf(),
        ensures
            match old(self)@.tx.tx_msg {
                None => r is None,
                Some(msg) => r is Some && content(r->0) == msg@.bytes(),
            },
            final(self)@ == old(self)@.msg_taken(),
    {
        match self.tx.tx_msg.take() {
            None => None,
            Some(msg) => Some(msg.encode()),
        }
    }

    /// Handles that the transmit sink refused the message that was handed to it.
    pub fn on_msg_refused(&mut self, err: LinkError)
        ensures
            final(self)@ == old(self)@.msg_refused(err),
    {
        if let Some(unsent) = self.tx.tx_unsent {
            self.tx.tx_unsent = None;
            self.flush.tx_last_msg = unsent.tx_last_msg;
            self.flush.txed_unflushed = unsent.txed_unflushed;
            self.flush.tx_flushing = unsent.tx_flushing;
            self.flush.txed_acks_unflushed = unsent.txed_acks_unflushed;
            self.flush.txed_first_unflushed_ack = unsent.txed_first_unflushed_ack;
            self.unacked.txed_unacked = unsent.txed_unacked;
            self.stats.unrecord(unsent.len);
        }
        self.tx.tx_error = Some(err);
        self.tx.tx_failed = true;
        self.tx.tx_data = None;
    }

    /// The next test data message to hand to the transmit sink, when the specified amount
    /// of test data has already been sent.
    ///
    /// `None` if the requested amount has been sent.
    pub fn next_test_msg(request: &TestRequest, sent: usize) -> (r: Option<LinkMsg>)
        ensures
            r == if sent >= request.data_limit {
                None
            } else if request.packet_size < request.data_limit - sent {
                Some(LinkMsg::TestData { size: request.packet_size })
            } else {
                Some(LinkMsg::TestData { size: (request.data_limit - sent) as usize })
            },
    {
        if sent >= request.data_limit {
            None
        } else if request.packet_size < request.data_limit - sent {
            Some(LinkMsg::TestData { size: request.packet_size })
        } else {
            Some(LinkMsg::TestData { size: request.data_limit - sent })
        }
    }

    /// Takes the request to send test data.
    pub fn take_test(&mut self) -> (r: Option<TestRequest>)
        ensures
            r == old(self)@.tx.tx_test,
            final(self)@ == old(self)@.test_taken(),
    {
        self.tx.tx_test.take()
    }

    /// Handles that the transmit sink failed while sending test data.
    pub fn on_test_failed(&mut self, err: LinkError)
        ensures
            final(self)@ == old(self)@.test_failed(err),
    {
        self.tx.tx_error = Some(err);
        self.tx.tx_failed = true;
    }
}

impl LinkState {
    /// State and event after an item has been obtained from the receive stream.
    ///
    /// A data message is held back until the packet with its data has been received. An acknowledgement
    /// ends the time during which an acknowledgement is outstanding, if it is for the last sent packet
    /// or a later one. A message that cannot be decoded makes the link fail.
    pub open spec fn received(self, item: RxItem, s: LinkState, event: Option<LinkIntEvent>) -> bool {
        match item {
            RxItem::Error(err) => s == self && event == Some(LinkIntEvent::RxError(err)),
            RxItem::End => s == self && event == Some(LinkIntEvent::RxError(LinkError::Closed)),
            RxItem::Packet(buf) => {
                let counted = LinkState { stats: self.stats.recorded(0, content(buf).len() as u64), ..self };
                match self.rxed_data_msg {
                    Some(msg) => {
                        &&& s == LinkState { rxed_data_msg: None, ..counted }
                        &&& event == Some(LinkIntEvent::Rx { msg, data: Some(buf) })
                    },
                    None => match MsgView::parse(content(buf)) {
                        Err(err) => s == counted && event == Some(LinkIntEvent::RxError(LinkError::Msg(err))),
                        Ok(MsgView::Data { seq }) => {
                            &&& s == LinkState { rxed_data_msg: Some(LinkMsg::Data { seq }), ..counted }
                            &&& event is None
                        },
                        Ok(view) => {
                            &&& s == LinkState {
                                unacked: LinkUnacked {
                                    txed_unacked: acked(self.unacked.txed_unacked, view),
                                    ..counted.unacked
                                },
                                ..counted
                            }
                            &&& event matches Some(LinkIntEvent::Rx { msg, data })
                            &&& msg@ == view
                            &&& data is None
                        },
                    },
                }
            },
        }
    }
}

/// The sequence number for which an acknowledgement is outstanding after receiving a message.
pub open spec fn acked(unacked: Option<SeqNum>, msg: MsgView) -> Option<SeqNum> {
    match (msg, unacked) {
        (MsgView::Ack { received }, Some(sent)) if !received.precedes(sent) => None,
        _ => unacked,
    }
}

impl LinkInt {
    /// Handles an item obtained from the receive stream.
    ///
    /// Returns `None` if another item must be obtained for an event to occur.
    pub fn on_received(&mut self, item: RxItem) -> (r: Option<LinkIntEvent>)
        requires
            old(self)@.wf(),
        ensures
            old(self)@.received(item, final(self)@, r),
            final(self)@.wf(),
    {
        match item {
            RxItem::Packet(buf) => {
                self.stats.record(0, buf.len() as u64);
                match self.rxed_data_msg.take() {
                    Some(msg) => Some(LinkIntEvent::Rx { msg, data: Some(buf) }),
                    None => match LinkMsg::read(bytes_as_slice(&buf)) {
                        Ok(msg) => {
                            match (&msg, self.unacked.txed_unacked) {
                                (LinkMsg::Ack { received }, Some(sent)) => {
                                    if *received >= sent {
                                        self.unacked.txed_unacked = None;
                                    }
                                },
                                _ => {},
                            }
                            if matches!(&msg, LinkMsg::Data { .. }) {
                                self.rxed_data_msg = Some(msg);
                                None
                            } else {
                                Some(LinkIntEvent::Rx { msg, data: None })
                            }
                        },
                        Err(err) => Some(LinkIntEvent::RxError(LinkError::Msg(err))),
                    },
                }
            },
            RxItem::Error(err) => Some(LinkIntEvent::RxError(err)),
            RxItem::End => Some(LinkIntEvent::RxError(LinkError::Closed)),
        }
    }

    /// Prepares waiting for the link to become ready, sending a message and flushing it.
    ///
    /// Fails if the transmit sink has already failed.
    pub fn start_send_and_flush(&mut self, now: Instant) -> (r: Result<(), LinkError>)
        ensures
            old(self)@.tx.tx_failed ==> r == Err::<(), LinkError>(LinkError::Failed) && final(self)@ == old(self)@,
            !old(self)@.tx.tx_failed ==> r is Ok && final(self)@ == old(self)@.reporting_ready(now),
    {
        match self.check_tx_failed() {
            Err(err) => Err(err),
            Ok(()) => {
                self.tx.tx_polling = Some(now);
                Ok(())
            },
        }
    }

    /// Accounts for a message that requires or is an acknowledgement.
    fn account_msg(&mut self, msg: &LinkMsg, now: Instant)
        ensures
            final(self)@ == old(self)@.accounted(*msg, now),
    {
        match msg {
            LinkMsg::Ack { .. } | LinkMsg::Consumed { .. } => {
                self.flush.txed_acks_unflushed = self.flush.txed_acks_unflushed.saturating_add(1);
                if self.flush.txed_first_unflushed_ack.is_none() {
                    self.flush.txed_first_unflushed_ack = Some(now);
                }
            },
            LinkMsg::Data { seq } => {
                let keep: bool = match self.unacked.txed_unacked {
                    Some(txed_unacked) => *seq < txed_unacked,
                    None => false,
                };
                if !keep {
                    self.unacked.txed_unacked = Some(*seq);
                }
            },
            _ => {},
        }
    }

    /// Records that bytes have been sent.
    fn record_sent(&mut self, len: u64, now: Instant)
        ensures
            final(self)@ == old(self)@.bytes_sent(len as int, now),
    {
        self.stats.record(len, 0);
        self.flush.tx_last_msg = Some(now);
        self.flush.txed_unflushed = self.flush.txed_unflushed.saturating_add(len);
    }

    /// What is recorded of the link before a message of the specified length is placed for transmission.
    fn unsent(&self, len: u64) -> (r: Unsent)
        ensures
            r == self@.unsent(len),
    {
        Unsent {
            len,
            tx_last_msg: self.flush.tx_last_msg,
            txed_unflushed: self.flush.txed_unflushed,
            tx_flushing: self.flush.tx_flushing,
            txed_acks_unflushed: self.flush.txed_acks_unflushed,
            txed_first_unflushed_ack: self.flush.txed_first_unflushed_ack,
            txed_unacked: self.unacked.txed_unacked,
        }
    }

    /// Places a message and data for transmission.
    fn place_msg(&mut self, msg: LinkMsg, data: Option<Bytes>, unsent: Unsent, now: Instant)
        ensures
            final(self)@ == old(self)@.placed(msg, data, unsent, now),
    {
        self.tx.tx_unsent = Some(unsent);
        self.tx.tx_polling = Some(now);
        self.flush.tx_idle_since = None;
        self.tx.tx_msg = Some(msg);
        self.tx.tx_data = data;
    }

    /// Whether so much unflushed data has accumulated that the link must be flushed.
    fn is_unflushed_limit_reached(&self) -> (r: bool)
        ensures
            r == (self@.eff_cfg().unflushed_limit matches Some(limit) && self@.flush.txed_unflushed >= limit),
    {
        match self.link_cfg().unflushed_limit {
            Some(limit) => self.flush.txed_unflushed >= limit as u64,
            None => false,
        }
    }

    /// Whether sending a message of this kind starts flushing of the link.
    fn is_flushing_msg(msg: &LinkMsg) -> (r: bool)
        ensures
            r == flushes(*msg),
    {
        matches!(
            msg,
            LinkMsg::Accepted
            | LinkMsg::Ping
            | LinkMsg::Pong
            | LinkMsg::SendFinish { .. }
            | LinkMsg::ReceiveClose { .. }
            | LinkMsg::ReceiveFinish { .. }
            | LinkMsg::Goodbye
        )
    }

    /// Send message over link, optionally followed by data.
    ///
    /// Link must be ready for sending.
    /// Returns whether flushing of the link has been started.
    pub fn start_send_msg(&mut self, msg: LinkMsg, data: Option<Bytes>, now: Instant) -> (r: bool)
        requires
            old(self)@.wf(),
            old(self)@.tx.tx_polling is None,
            !(msg is Welcome),
            !(msg is Connect),
            msg.wire_len() <= usize::MAX,
            msg.wire_len() + data_len(data) <= u64::MAX,
        ensures
            final(self)@ == old(self)@.sent(msg, data, now),
            r == old(self)@.send_flushes(msg, data),
            final(self)@.wf(),
    {
        if let Err(err) = self.check_tx_failed() {
            if self.tx.tx_error.is_none() {
                self.tx.tx_error = Some(err);
            }
            return false;
        }
        let data_len: usize = match &data {
            Some(data) => data.len(),
            None => 0,
        };
        let total_len: u64 = msg.encoded_len() as u64 + data_len as u64;

        let unsent: Unsent = self.unsent(total_len);
        self.account_msg(&msg, now);
        self.record_sent(total_len, now);
        let flush: bool = LinkInt::is_flushing_msg(&msg) || self.is_unflushed_limit_reached();
        self.place_msg(msg, data, unsent, now);
        if flush {
            self.start_flush(now);
        }
        flush
    }

    /// Flush the send buffer of the link.
    pub fn start_flush(&mut self, now: Instant)
        ensures
            final(self)@ == old(self)@.flushing(now),
    {
        self.flush.txed_acks_unflushed = 0;
        self.flush.txed_first_unflushed_ack = None;
        self.flush.txed_unflushed = 0;
        self.flush.tx_flushing = true;
        self.tx.tx_polling = Some(now);
    }

    /// Whether flushing is required because of sent acks.
    pub fn need_ack_flush(&self) -> (r: bool)
        ensures
            r == self@.need_ack_flush(),
    {
        self.flush.txed_acks_unflushed != 0
    }

    /// Whether flushing is required.
    pub fn needs_flush(&self) -> (r: bool)
        ensures
            r == self@.needs_flush(),
    {
        self.flush.txed_first_unflushed_data.is_some() && !self.flush.tx_flushing
    }

    /// Whether the link has an outstanding acknowledgement.
    pub fn has_outstanding_ack(&self) -> (r: bool)
        ensures
            r == (self@.unacked.txed_unacked is Some),
    {
        self.unacked.txed_unacked.is_some()
    }

    /// Report (again) when link becomes ready.
    pub fn report_ready(&mut self, now: Instant)
        ensures
            final(self)@ == old(self)@.reporting_ready(now),
    {
        self.tx.tx_polling = Some(now);
    }

    /// Requests sending test data over the link until the transmit sink starts blocking or
    /// the limit is reached.
    pub fn send_test_data(&mut self, request: TestRequest, now: Instant)
        ensures
            final(self)@ == old(self)@.test_data_requested(request, now),
    {
        self.tx.tx_polling = Some(now);
        if self.flush.txed_first_unflushed_data.is_none() {
            self.flush.txed_first_unflushed_data = Some(now);
        }
        self.flush.tx_idle_since = None;

        if let Err(err) = self.check_tx_failed() {
            if self.tx.tx_error.is_none() {
                self.tx.tx_error = Some(err);
            }
            return;
        }
        if request.data_limit > 0 {
            self.tx.tx_test = Some(request);
        }
    }

    /// Marks the send part of the link as idle.
    pub fn mark_idle(&mut self, now: Instant)
        ensures
            final(self)@ == old(self)@.idle(now),
    {
        self.flush.tx_idle_since = Some(now);
        self.stats.mark_idle();
    }

    /// Returns whether unacknowledged sent data is under the limit.
    pub fn is_sendable(&self) -> (r: bool)
        ensures
            r == self@.is_sendable(),
    {
        self.unacked.txed_unacked_data < self.unacked.txed_unacked_data_limit
    }

    /// Reset statistics and limits when the link is unconfirmed.
    pub fn reset(&mut self)
        ensures
            final(self)@ == old(self)@.reset_limits(),
    {
        // Log hang in statistics.
        self.stats.record_hang();

        // Reset unacked data limit.
        let half: u64 = self.unacked.txed_unacked_data_limit / 2;
        self.unacked.txed_unacked_data_limit = if half < 128 {
            128
        } else {
            half
        };
        self.unacked.txed_unacked_data_limit_increased = None;
        self.unacked.txed_unacked_data_limit_increased_consecutively = 0;
    }

    /// Whether link is blocked locally or remotely.
    pub fn is_blocked(&self) -> (r: bool)
        ensures
            r == self@.is_blocked(),
    {
        self.status.blocked || self.status.remotely_blocked
    }

    /// Publishes link statistics.
    ///
    /// Returns whether the statistics have changed.
    pub fn publish_stats(&mut self, now: Instant) -> (r: bool)
        requires
            old(self)@.wf(),
        ensures
            final(self)@ == old(self)@.stats_published(now),
            r == old(self)@.stats.any_over(now),
            final(self)@.wf(),
    {
        self.stats.current.sent_unacked = self.unacked.txed_unacked_data;
        self.stats.current.unacked_limit = self.unacked.txed_unacked_data_limit;
        self.stats.current.roundtrip = self.ping.roundtrip;
        assert(self.stats@.any_over(now) == old(self)@.stats.any_over(now)) by {
            assert(forall|i: int| #[trigger] self.stats@.is_over(i, now) == old(self)@.stats.is_over(i, now));
            if old(self)@.stats.any_over(now) {
                let i = choose|i: int|
                    0 <= i < old(self)@.stats.running.len() && #[trigger] old(self)@.stats.is_over(i, now);
                assert(self.stats@.is_over(i, now));
            }
        }
        self.stats.publish(now)
    }
}

/// Progress of forcefully terminating a connection over a link.
#[derive(Debug, Clone, Copy, PartialEq, Eq, Structural)]
pub enum TerminationPhase {
    /// Waiting for link to become ready for sending the termination message.
    WaitReady,
    /// Waiting for the termination message of the remote endpoint.
    WaitReply,
    /// Termination is complete.
    Done,
}

/// Forceful termination of a connection over a link.
#[derive(Debug, Clone, Copy, PartialEq, Eq, Structural)]
pub struct LinkTermination {
    /// Progress.
    pub phase: TerminationPhase,
    /// Whether the remote endpoint is expected to reply.
    pub expect_reply: bool,
}

/// Whether an event is the reception of a termination message.
pub open spec fn is_terminate(event: LinkIntEvent) -> bool {
    event matches LinkIntEvent::Rx { msg, .. } && msg is Terminate
}

impl LinkTermination {
    /// State and whether to send the termination message after an event of the link.
    ///
    /// The termination message is sent once the link is ready or has failed. A reply is not
    /// waited for, if the remote endpoint has already sent its termination message.
    pub open spec fn next(self, event: LinkIntEvent) -> (LinkTermination, bool) {
        match self.phase {
            TerminationPhase::WaitReady => if event is TxReady || event is TxError {
                (
                    LinkTermination {
                        phase: if self.expect_reply {
                            TerminationPhase::WaitReply
                        } else {
                            TerminationPhase::Done
                        },
                        ..self
                    },
                    true,
                )
            } else if is_terminate(event) {
                (LinkTermination { expect_reply: false, ..self }, false)
            } else {
                (self, false)
            },
            TerminationPhase::WaitReply => if event is RxError || is_terminate(event) {
                (LinkTermination { phase: TerminationPhase::Done, ..self }, false)
            } else {
                (self, false)
            },
            TerminationPhase::Done => (self, false),
        }
    }

    /// Starts forceful termination of a connection.
    pub fn new(expect_reply: bool) -> (r: Self)
        ensures
            r == (LinkTermination { phase: TerminationPhase::WaitReady, expect_reply }),
    {
        LinkTermination { phase: TerminationPhase::WaitReady, expect_reply }
    }

    /// Handles an event of the link.
    ///
    /// Returns whether the termination message must be sent and flushed.
    pub fn on_event(&mut self, event: &LinkIntEvent) -> (r: bool)
        ensures
            (*final(self), r) == old(self).next(*event),
    {
        let terminate: bool = match event {
            LinkIntEvent::Rx { msg, .. } => matches!(msg, LinkMsg::Terminate),
            _ => false,
        };
        match self.phase {
            TerminationPhase::WaitReady => {
                if matches!(event, LinkIntEvent::TxReady | LinkIntEvent::TxError(_)) {
                    self.phase = if self.expect_reply {
                        TerminationPhase::WaitReply
                    } else {
                        TerminationPhase::Done
                    };
                    return true;
                }
                if terminate {
                    self.expect_reply = false;
                }
                false
            },
            TerminationPhase::WaitReply => {
                if terminate || matches!(event, LinkIntEvent::RxError(_)) {
                    self.phase = TerminationPhase::Done;
                }
                false
            },
            TerminationPhase::Done => false,
        }
    }
}

/// A message that the transmit sink refuses counts as not sent: neither the statistics nor what must be
/// flushed or acknowledged tell of it.
pub proof fn law_refused_message_not_recorded(
    l: LinkState,
    msg: LinkMsg,
    data: Option<Bytes>,
    err: LinkError,
    now: Instant,
)
    requires
        !l.tx.tx_failed,
        msg.wire_len() + data_len(data) <= u64::MAX,
    ensures
        ({
            let t = l.sent(msg, data, now).msg_taken().msg_refused(err);
            t == LinkState {
                tx: LinkTx {
                    tx_msg: None,
                    tx_data: None,
                    tx_error: Some(err),
                    tx_failed: true,
                    tx_polling: Some(now),
                    tx_unsent: None,
                    ..l.tx
                },
                flush: LinkFlush { tx_idle_since: None, ..l.flush },
                ..l
            }
        }),
{
    law_unrecorded_inverts_recorded(l.stats, (msg.wire_len() + data_len(data)) as u64);
}

/// What a link does or what happens to it.
pub enum LinkStep {
    /// The last transmit error is taken.
    TakeError,
    /// Flushing the transmit sink ends.
    Flushed(bool),
    /// The transmit sink is polled for readyness.
    Polled(bool),
    /// Waiting for the transmit sink to become ready ends.
    Ready(bool, Instant),
    /// The message for the transmit sink is taken.
    TakeMsg,
    /// The transmit sink refuses a message.
    RefuseMsg(LinkError),
    /// The request to send test data is taken.
    TakeTest,
    /// The transmit sink fails while sending test data.
    FailTest(LinkError),
    /// A message is sent.
    Send(LinkMsg, Option<Bytes>, Instant),
    /// Test data is to be sent.
    SendTest(TestRequest, Instant),
    /// It is to be reported when the link becomes ready.
    ReportReady(Instant),
    /// The link is flushed.
    Flush(Instant),
    /// The transmit sink refuses data.
    RefuseData,
    /// Something that does not concern transmission happens, such as the reception of a packet, after which
    /// the rest of the link is as specified.
    Other(LinkState),
}

impl LinkState {
    /// State after a step.
    pub open spec fn after(self, step: LinkStep) -> LinkState {
        match step {
            LinkStep::TakeError => self.error_taken(),
            LinkStep::Flushed(success) => self.flush_ended(success),
            LinkStep::Polled(pending) => self.polled(pending),
            LinkStep::Ready(success, now) => self.ready_ended(success, now),
            LinkStep::TakeMsg => self.msg_taken(),
            LinkStep::RefuseMsg(err) => self.msg_refused(err),
            LinkStep::TakeTest => self.test_taken(),
            LinkStep::FailTest(err) => self.test_failed(err),
            LinkStep::Send(msg, data, now) => self.sent(msg, data, now),
            LinkStep::SendTest(request, now) => self.test_data_requested(request, now),
            LinkStep::ReportReady(now) => self.reporting_ready(now),
            LinkStep::Flush(now) => self.flushing(now),
            LinkStep::RefuseData => self.failed(),
            LinkStep::Other(l) => LinkState { tx: self.tx, ..l },
        }
    }

    /// State after several steps.
    pub open spec fn after_all(self, steps: Seq<LinkStep>) -> LinkState
        decreases steps.len(),
    {
        if steps.len() == 0 {
            self
        } else {
            self.after_all(steps.drop_last()).after(steps.last())
        }
    }
}

/// Once the transmit sink of a link has failed, an error is reported whenever the link is polled, whatever
/// comes between.
pub proof fn law_failed_sink_stays_failed(l: LinkState, steps: Seq<LinkStep>)
    requires
        l.tx.tx_failed,
    ensures
        l.after_all(steps).tx.tx_failed,
        l.after_all(steps).pending_error() is Some,
    decreases steps.len(),
{
    if steps.len() > 0 {
        law_failed_sink_stays_failed(l, steps.drop_last());
    }
}

} // verus!
