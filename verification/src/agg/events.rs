//! Handling of the events of a connection.

use crate::agg::limits::{harmless, ids_where, mapped};
use crate::agg::limits::lemma_map_links_wf;
use crate::agg::link_int::{DisconnectInitiator, LinkInfo, LinkInt, LinkIntEvent, LinkPinging, LinkState};
use crate::agg::link_int::{LinkStatus, LinkTest};
use crate::agg::ready::{data_to_send, SendFlags};
use crate::agg::ready::lemma_tx_ready_wf;
use crate::agg::recv::{lemma_block_changed_wf, lemma_receive_msg_wf, lemma_start_disconnecting_wf};
use crate::agg::send::first_empty;
use crate::agg::send::{lemma_link_replaced, lemma_remove_wf};
use crate::agg::state::{lemma_flush_link_wf, lemma_frame_wf, lemma_link_entries_update, lemma_set_link_wf};
use crate::agg::state::{lemma_wf_idle, lemma_wf_link};
use crate::agg::state::{link_entry, may_idle, SendReq, Task, TaskChannels, TaskInfo, TaskState};
use crate::agg::termination::{FatalConnectError, Termination};
use crate::agg::user::lemma_flushed_wf;
use crate::cfg::{ExchangedCfg, LinkCfg};
use crate::control::{DisconnectReason, NotWorkingReason};
use crate::error::{LinkError, ProtocolError};
use crate::id::LinkId;
use crate::msg::{LinkMsg, RefusedReason};
use crate::peekable_mpsc::PeekableReceiver;
use crate::time::Instant;
use bytes::Bytes;
use vstd::prelude::*;

verus! {

broadcast use vstd::std_specs::hash::group_hash_axioms;

/// Link aggregator task event.
#[derive(Debug)]
pub enum TaskEvent {
    /// Local request to forcefully terminate the connection.
    Terminate,
    /// No new links will be available.
    NoNewLinks,
    /// A link event occured.
    LinkEvent {
        /// Index of the link.
        id: usize,
        /// Event.
        event: LinkIntEvent,
    },
    /// Data waiting to be sent can be sent over the sendable idle link.
    WriteRx,
    /// Sending of the size of consumed data is required and possible over an idle link.
    SendConsumed,
    /// The sender has been dropped.
    WriteEnd,
    /// The user has requested that all links be flushed.
    Flush,
    /// A packet sent over the specified link was not confirmed in time.
    ConfirmTimedOut(usize),
    /// A packet can be resent over the resendable idle link.
    Resend,
    /// The receiver has been dropped.
    ReadDropped,
    /// The receiver has been closed.
    ReadClosed,
    /// Link must be pinged.
    PingLink(usize),
    /// Link has been unconfirmed for too long.
    LinkUnconfirmedTimeout(usize),
    /// Sending over link takes too long.
    LinkSendTimeout(usize),
    /// Ping of link has timed out.
    LinkPingTimeout(usize),
    /// A link testing step must be performed.
    LinkTesting,
    /// No links were available for too long.
    NoLinksTimeout,
    /// The refusal of a link has been completed.
    RefusedLinkTask,
    /// Fatal error during connecting.
    FatalConnectError(FatalConnectError),
}

/// Outcome of a new link being presented to a connection.
#[derive(Debug)]
pub enum NewLink {
    /// The link was added and has the specified index.
    Added(usize),
    /// The link was refused.
    Refused {
        /// Refused link.
        link: LinkInt,
        /// Message to send over it before disconnecting, if any.
        reply: Option<LinkMsg>,
        /// Reason for its disconnection.
        reason: DisconnectReason,
    },
}

/// Why a link is disconnected when sending or receiving over it fails.
pub open spec fn failure_reason(s: TaskState, err: LinkError) -> DisconnectReason {
    if !s.chan.read_open && s.write_rx is None {
        DisconnectReason::ConnectionClosed
    } else {
        DisconnectReason::IoError(err)
    }
}

/// How a connection ends when a message has been handled, if it does.
pub open spec fn msg_termination(link_id: LinkId, outcome: Result<bool, ProtocolError>) -> Option<Termination> {
    match outcome {
        Ok(false) => None,
        Ok(true) => Some(Termination::Remote),
        Err(error) => Some(Termination::Protocol { link_id, error }),
    }
}

impl TaskState {
    /// Whether a link event can occur.
    pub open spec fn admits_link_event(self, id: usize, event: LinkIntEvent) -> bool {
        &&& self.has(id as int)
        &&& (event is TxReady ==> self.link(id as int).tx.tx_polling is None)
        &&& (event matches LinkIntEvent::Rx { msg, data } ==> msg is Data ==> data is Some)
        &&& (event matches LinkIntEvent::LinkCfgChanged(Some(link_cfg)) ==> link_cfg.wf())
    }

    /// Whether an event can occur.
    pub open spec fn admits(self, event: TaskEvent, flags: SendFlags) -> bool {
        match event {
            TaskEvent::LinkEvent { id, event } => self.admits_link_event(id, event),
            TaskEvent::WriteRx => {
                &&& flags.tx_seq_avail
                &&& flags.sendable is Some
                &&& data_to_send(self.write_rx, flags.tx_space) is Some
            },
            TaskEvent::SendConsumed => flags.tx_seq_avail && self.idle.len() > 0,
            TaskEvent::Resend => flags.resending && flags.resendable is Some,
            TaskEvent::Flush => self.write_rx == Some(PeekableReceiver { peeked: Some(SendReq::Flush) }),
            TaskEvent::WriteEnd => self.write_rx matches Some(write_rx) && write_rx.peeked is None,
            TaskEvent::ConfirmTimedOut(id)
            | TaskEvent::PingLink(id)
            | TaskEvent::LinkUnconfirmedTimeout(id)
            | TaskEvent::LinkSendTimeout(id)
            | TaskEvent::LinkPingTimeout(id) => self.has(id as int),
            _ => true,
        }
    }

    /// State after a ping of a link has been requested.
    #[verifier::opaque]
    pub open spec fn ping_requested(self, id: usize, now: Instant) -> TaskState {
        let link = self.link(id as int);
        self.set_link(id as int, LinkState { ping: LinkPinging { send_ping: true, ..link.ping }, ..link }).flush_link(
            id,
            now,
        )
    }

    /// State after a link event has been handled and how the connection ends, if it does.
    #[verifier::opaque]
    pub open spec fn handle_link_event(self, id: usize, event: LinkIntEvent, flags: SendFlags, now: Instant) -> (
        TaskState,
        Option<Termination>,
    ) {
        let link = self.link(id as int);
        match event {
            LinkIntEvent::TxReady => (self.tx_ready(id, flags, now), None),
            LinkIntEvent::TxFlushed => (TaskState { unflushed: self.unflushed.remove(id), ..self }, None),
            LinkIntEvent::Rx { msg, data } => {
                let (s, outcome) = self.receive_msg(id, msg, data, now);
                (s, msg_termination(link.info.link_id, outcome))
            },
            LinkIntEvent::FlushRequired => (self.flush_link(id, now), None),
            LinkIntEvent::TxError(err) | LinkIntEvent::RxError(err) => (
                self.remove(id, failure_reason(self, err), now),
                None,
            ),
            LinkIntEvent::BlockedChanged(blocked) => (
                self.block_changed(id, LinkStatus { blocked, ..link.status }, now),
                None,
            ),
            LinkIntEvent::LinkCfgChanged(link_cfg) => (
                self.set_link(id as int, LinkState { info: LinkInfo { link_cfg, ..link.info }, ..link }),
                None,
            ),
            LinkIntEvent::Disconnect => (
                if link.status.disconnecting is None {
                    self.start_disconnecting(id, DisconnectInitiator::Local, now)
                } else {
                    self
                },
                None,
            ),
        }
    }

    /// State after an event has been handled and how the connection ends, if it does.
    pub open spec fn handle_event(self, event: TaskEvent, flags: SendFlags, now: Instant) -> (
        TaskState,
        Option<Termination>,
    ) {
        match event {
            TaskEvent::Terminate => (self, Some(Termination::Local)),
            TaskEvent::NoNewLinks => (
                TaskState { chan: TaskChannels { link_rx_open: false, ..self.chan }, ..self },
                None,
            ),
            TaskEvent::LinkEvent { id, event } => self.handle_link_event(id, event, flags, now),
            TaskEvent::WriteRx => (
                self.send_data(flags.sendable->0, data_to_send(self.write_rx, flags.tx_space)->0, now),
                None,
            ),
            TaskEvent::SendConsumed => (self.send_consumed(self.idle.last(), now), None),
            TaskEvent::WriteEnd => (self.write_ended(flags.tx_seq_avail, now), None),
            TaskEvent::Flush => (self.start_user_flush(now), None),
            TaskEvent::ConfirmTimedOut(id) => (self.unconfirm(id, NotWorkingReason::AckTimeout, now), None),
            TaskEvent::Resend => (self.resend_reliable(flags.resendable->0, now), None),
            TaskEvent::ReadDropped => (self.read_dropped(flags.tx_seq_avail, now), None),
            TaskEvent::ReadClosed => (self.read_closed(flags.tx_seq_avail, now), None),
            TaskEvent::PingLink(id) => (self.ping_requested(id, now), None),
            TaskEvent::LinkUnconfirmedTimeout(id) => (
                self.remove(id, DisconnectReason::UnconfirmedTimeout, now),
                None,
            ),
            TaskEvent::LinkSendTimeout(id) => (self.remove(id, DisconnectReason::SendTimeout, now), None),
            TaskEvent::LinkPingTimeout(id) => (self.remove(id, DisconnectReason::PingTimeout, now), None),
            TaskEvent::LinkTesting | TaskEvent::RefusedLinkTask => (self, None),
            TaskEvent::NoLinksTimeout => (self, Some(Termination::NoLinksTimeout)),
            TaskEvent::FatalConnectError(FatalConnectError::ServerIdMismatch) => (
                self,
                Some(Termination::ServerIdMismatch),
            ),
            TaskEvent::FatalConnectError(FatalConnectError::Closed) => (self, Some(Termination::AbortedByServer)),
        }
    }

    /// State after the configuration of the remote endpoint has become known.
    pub open spec fn remote_known(self, remote_cfg: ExchangedCfg) -> TaskState {
        match self.info.remote_cfg {
            Some(_) => self,
            None => TaskState { info: TaskInfo { remote_cfg: Some(remote_cfg), ..self.info }, ..self },
        }
    }
}

/// A link event keeps the invariant.
pub proof fn lemma_handle_link_event_wf(
    s: TaskState,
    id: usize,
    event: LinkIntEvent,
    flags: SendFlags,
    now: Instant,
)
    requires
        s.wf(),
        s.allows(flags),
        s.admits_link_event(id, event),
    ensures
        s.handle_link_event(id, event, flags, now).0.wf(),
{
    reveal(TaskState::handle_link_event);
    let link = s.link(id as int);
    match event {
        LinkIntEvent::TxReady => lemma_tx_ready_wf(s, id, flags, now),
        LinkIntEvent::TxFlushed => lemma_flushed_wf(s, id),
        LinkIntEvent::Rx { msg, data } => lemma_receive_msg_wf(s, id, msg, data, now),
        LinkIntEvent::FlushRequired => lemma_flush_link_wf(s, id, now),
        LinkIntEvent::TxError(err) | LinkIntEvent::RxError(err) => lemma_remove_wf(
            s,
            id,
            failure_reason(s, err),
            now,
        ),
        LinkIntEvent::BlockedChanged(blocked) => lemma_block_changed_wf(
            s,
            id,
            LinkStatus { blocked, ..link.status },
            now,
        ),
        LinkIntEvent::LinkCfgChanged(link_cfg) => {
            lemma_wf_link(s, id as int);
            let changed = LinkState { info: LinkInfo { link_cfg, ..link.info }, ..link };
            assert(s.idle.contains(id) ==> may_idle(changed));
            lemma_set_link_wf(s, id as int, changed);
        },
        LinkIntEvent::Disconnect => lemma_start_disconnecting_wf(s, id, DisconnectInitiator::Local, now),
    }
}

/// Requesting a ping keeps the invariant.
pub proof fn lemma_ping_requested_wf(s: TaskState, id: usize, now: Instant)
    requires
        s.wf(),
        s.has(id as int),
    ensures
        s.ping_requested(id, now).wf(),
        ({
            let link = s.link(id as int);
            let t = s.set_link(id as int, LinkState { ping: LinkPinging { send_ping: true, ..link.ping }, ..link });
            t.wf() && t.has(id as int)
        }),
{
    reveal(TaskState::ping_requested);
    let link = s.link(id as int);
    lemma_wf_link(s, id as int);
    let pinged = LinkState { ping: LinkPinging { send_ping: true, ..link.ping }, ..link };
    assert(s.idle.contains(id) ==> may_idle(pinged));
    lemma_set_link_wf(s, id as int, pinged);
    lemma_flush_link_wf(s.set_link(id as int, pinged), id, now);
}

/// Learning the configuration of the remote endpoint keeps the invariant.
pub proof fn lemma_remote_known_wf(s: TaskState, remote_cfg: ExchangedCfg)
    requires
        s.wf(),
        remote_cfg.wf(),
    ensures
        s.remote_known(remote_cfg).wf(),
        s.remote_known(remote_cfg).info.remote_cfg is Some,
        s.remote_known(remote_cfg).links == s.links,
{
    reveal(TaskState::wf);
    let t = s.remote_known(remote_cfg);
    assert forall|i: int| #![trigger t.has(i)] t.has(i) implies t.link(i).wf() && t.link(
        i,
    ).unacked.txed_unacked_data == crate::agg::tx::total(crate::agg::tx::Tally::OnLink(i), t.tx.packets) by {
        assert(s.has(i));
    }
    assert forall|k: int| 0 <= k < t.tx.packets.len() implies t.packet_link_wf(#[trigger] t.tx.packets[k]) by {
        assert(s.packet_link_wf(s.tx.packets[k]));
    }
    assert forall|i: usize| #![trigger t.idle.contains(i)] t.idle.contains(i) implies t.has(i as int) && may_idle(
        t.link(i as int),
    ) by {
        assert(s.idle.contains(i));
    }
    assert forall|i: usize| #![trigger t.unflushed.contains(i)] t.unflushed.contains(i) implies t.has(i as int) by {
        assert(s.unflushed.contains(i));
    }
}

impl Task {
    /// Changes the configuration of a link.
    fn update_link_cfg(&mut self, id: usize, link_cfg: Option<LinkCfg>)
        requires
            old(self)@.has(id as int),
        ensures
            final(self)@ == old(self)@.set_link(
                id as int,
                (LinkState {
                    info: (LinkInfo { link_cfg, ..old(self)@.link(id as int).info }),
                    ..old(self)@.link(id as int)
                }),
            ),
    {
        let ghost before = self@;
        let ghost entries = self.links@;
        if let Some(link) = &mut self.links[id] {
            link.update_link_cfg(link_cfg);
        }
        proof {
            lemma_link_replaced(entries, self.links@, id as int, self.links@[id as int]->0);
            assert(self@ =~= before.set_link(id as int, (self.links@[id as int]->0)@));
        }
    }

    /// Changes whether a link is blocked by the user.
    fn change_blocked(&mut self, id: usize, blocked: bool, now: Instant)
        requires
            old(self)@.wf(),
            old(self)@.has(id as int),
        ensures
            final(self)@ == old(self)@.block_changed(
                id,
                (LinkStatus { blocked, ..old(self)@.link(id as int).status }),
                now,
            ),
            final(self)@.wf(),
    {
        let ghost before = self@;
        let ghost status = LinkStatus { blocked, ..before.link(id as int).status };
        let ghost entries = self.links@;
        proof {
            lemma_block_changed_wf(before, id, status, now);
        }
        if let Some(link) = &mut self.links[id] {
            link.status.blocked = blocked;
            link.report_ready(now);
        }
        proof {
            lemma_link_replaced(entries, self.links@, id as int, self.links@[id as int]->0);
        }
        self.remove_idle(id);
        assert(self@ =~= before.block_changed(id, status, now));
    }

    /// Whether the disconnection of a link has been started.
    fn is_disconnecting(&self, id: usize) -> (r: bool)
        requires
            self@.has(id as int),
        ensures
            r == (self@.link(id as int).status.disconnecting is Some),
    {
        match &self.links[id] {
            Some(link) => link.status.disconnecting.is_some(),
            None => false,
        }
    }

    /// Requests a ping of a link.
    fn request_ping(&mut self, id: usize, now: Instant)
        requires
            old(self)@.wf(),
            old(self)@.has(id as int),
        ensures
            final(self)@ == old(self)@.ping_requested(id, now),
            final(self)@.wf(),
    {
        let ghost before = self@;
        let ghost entries = self.links@;
        proof {
            lemma_ping_requested_wf(before, id, now);
        }
        if let Some(link) = &mut self.links[id] {
            link.ping.send_ping = true;
        }
        proof {
            let link = before.link(id as int);
            let t = before.set_link(
                id as int,
                LinkState { ping: LinkPinging { send_ping: true, ..link.ping }, ..link },
            );
            lemma_link_replaced(entries, self.links@, id as int, self.links@[id as int]->0);
            assert(self@ =~= t);
            reveal(TaskState::ping_requested);
        }
        self.flush_link(id, now);
    }

    /// Removes a link over which sending or receiving has failed.
    fn remove_failed_link(&mut self, id: usize, err: LinkError, now: Instant)
        requires
            old(self)@.wf(),
            old(self)@.has(id as int),
        ensures
            final(self)@ == old(self)@.remove(id, failure_reason(old(self)@, err), now),
            final(self)@.wf(),
    {
        let reason: DisconnectReason = if !self.chan.read_open && self.write_rx.is_none() {
            DisconnectReason::ConnectionClosed
        } else {
            DisconnectReason::IoError(err)
        };
        self.remove_link(id, reason, now);
    }

    /// Handles a link event.
    ///
    /// Returns how the connection ends, if it does.
    #[verifier::rlimit(40)]
    pub fn handle_link_event(&mut self, id: usize, event: LinkIntEvent, flags: &SendFlags, now: Instant) -> (r: Option<
        Termination,
    >)
        requires
            old(self)@.wf(),
            old(self)@.allows(*flags),
            old(self)@.admits_link_event(id, event),
        ensures
            (final(self)@, r) == old(self)@.handle_link_event(id, event, *flags, now),
            final(self)@.wf(),
    {
        reveal(TaskState::handle_link_event);
        let ghost before = self@;
        proof {
            lemma_handle_link_event_wf(before, id, event, *flags, now);
        }
        match event {
            LinkIntEvent::TxReady => {
                self.handle_tx_ready(id, flags, now);
                None
            },
            LinkIntEvent::TxFlushed => {
                self.unflushed_links.remove(&id);
                assert(self@ =~= before.handle_link_event(id, event, *flags, now).0);
                None
            },
            LinkIntEvent::Rx { msg, data } => {
                let link_id: LinkId = self.link_id_of(id);
                match self.handle_received_msg(id, msg, data, now) {
                    Ok(false) => None,
                    Ok(true) => Some(Termination::Remote),
                    Err(error) => Some(Termination::Protocol { link_id, error }),
                }
            },
            LinkIntEvent::FlushRequired => {
                self.flush_link(id, now);
                None
            },
            LinkIntEvent::TxError(err) | LinkIntEvent::RxError(err) => {
                self.remove_failed_link(id, err, now);
                None
            },
            LinkIntEvent::BlockedChanged(blocked) => {
                self.change_blocked(id, blocked, now);
                None
            },
            LinkIntEvent::LinkCfgChanged(link_cfg) => {
                self.update_link_cfg(id, link_cfg);
                None
            },
            LinkIntEvent::Disconnect => {
                if !self.is_disconnecting(id) {
                    self.start_disconnecting(id, DisconnectInitiator::Local, now);
                }
                None
            },
        }
    }

    /// Sends data waiting to be sent over the sendable idle link.
    fn send_waiting_data(&mut self, flags: &SendFlags, now: Instant)
        requires
            old(self)@.wf(),
            old(self)@.allows(*flags),
            flags.tx_seq_avail,
            flags.sendable is Some,
            data_to_send(old(self)@.write_rx, flags.tx_space) is Some,
        ensures
            final(self)@ == old(self)@.send_data(
                flags.sendable->0,
                data_to_send(old(self)@.write_rx, flags.tx_space)->0,
                now,
            ),
            final(self)@.wf(),
    {
        let data: Option<Bytes> = self.data_to_send(flags.tx_space);
        if let (Some(id), Some(data)) = (flags.sendable, data) {
            proof {
                lemma_wf_idle(self@, id);
            }
            self.send_data(id, data, now);
        }
    }

    /// Sends the size of consumed data over the link that became idle last.
    fn send_consumed_over_idle(&mut self, now: Instant)
        requires
            old(self)@.wf(),
            old(self)@.tx.seq_avail(),
            old(self)@.idle.len() > 0,
        ensures
            final(self)@ == old(self)@.send_consumed(old(self)@.idle.last(), now),
            final(self)@.wf(),
    {
        let n: usize = self.idle_links.len();
        let id: usize = self.idle_links[n - 1];
        proof {
            assert(self@.idle.contains(id));
            lemma_wf_idle(self@, id);
        }
        self.send_consumed(id, now);
    }

    /// Resends a packet over the resendable idle link.
    fn resend_over_idle(&mut self, flags: &SendFlags, now: Instant)
        requires
            old(self)@.wf(),
            old(self)@.allows(*flags),
            flags.resending,
            flags.resendable is Some,
        ensures
            final(self)@ == old(self)@.resend_reliable(flags.resendable->0, now),
            final(self)@.wf(),
    {
        if let Some(id) = flags.resendable {
            proof {
                lemma_wf_idle(self@, id);
            }
            self.resend_reliable_over_link(id, now);
        }
    }

    /// Handles an event.
    ///
    /// Returns how the connection ends, if it does.
    #[verifier::rlimit(40)]
    pub fn handle_event(&mut self, event: TaskEvent, flags: &SendFlags, now: Instant) -> (r: Option<Termination>)
        requires
            old(self)@.wf(),
            old(self)@.allows(*flags),
            old(self)@.admits(event, *flags),
        ensures
            (final(self)@, r) == old(self)@.handle_event(event, *flags, now),
            final(self)@.wf(),
    {
        let ghost before = self@;
        match event {
            TaskEvent::Terminate => Some(Termination::Local),
            TaskEvent::NoNewLinks => {
                self.chan.link_rx_open = false;
                proof {
                    lemma_frame_wf(before, self@);
                }
                assert(self@ =~= before.handle_event(event, *flags, now).0);
                None
            },
            TaskEvent::LinkEvent { id, event } => self.handle_link_event(id, event, flags, now),
            TaskEvent::ConfirmTimedOut(id) => {
                self.unconfirm_link(id, NotWorkingReason::AckTimeout, now);
                None
            },
            TaskEvent::PingLink(id) => {
                self.request_ping(id, now);
                None
            },
            TaskEvent::LinkUnconfirmedTimeout(id) => {
                self.remove_link(id, DisconnectReason::UnconfirmedTimeout, now);
                None
            },
            TaskEvent::LinkSendTimeout(id) => {
                self.remove_link(id, DisconnectReason::SendTimeout, now);
                None
            },
            TaskEvent::LinkPingTimeout(id) => {
                self.remove_link(id, DisconnectReason::PingTimeout, now);
                None
            },
            TaskEvent::LinkTesting | TaskEvent::RefusedLinkTask => None,
            TaskEvent::NoLinksTimeout => Some(Termination::NoLinksTimeout),
            TaskEvent::FatalConnectError(FatalConnectError::ServerIdMismatch) => Some(Termination::ServerIdMismatch),
            TaskEvent::FatalConnectError(FatalConnectError::Closed) => Some(Termination::AbortedByServer),
            TaskEvent::WriteRx => {
                self.send_waiting_data(flags, now);
                None
            },
            TaskEvent::SendConsumed => {
                self.send_consumed_over_idle(now);
                None
            },
            TaskEvent::WriteEnd => {
                self.handle_write_end(flags.tx_seq_avail, now);
                None
            },
            TaskEvent::Flush => {
                self.start_user_flush(now);
                None
            },
            TaskEvent::ReadDropped => {
                self.handle_read_dropped(flags.tx_seq_avail, now);
                None
            },
            TaskEvent::ReadClosed => {
                self.handle_read_closed(flags.tx_seq_avail, now);
                None
            },
            TaskEvent::Resend => {
                self.resend_over_idle(flags, now);
                None
            },
        }
    }

    /// Handles a new link, which the link filter has accepted or not.
    pub fn handle_new_link(&mut self, link: LinkInt, accepted: bool, now: Instant) -> (r: NewLink)
        requires
            old(self)@.wf(),
            link@.wf(),
            link@.status.test == LinkTest::Inactive,
            link@.unacked.txed_unacked_data == 0,
            link@.info.remote_cfg.wf(),
        ensures
            final(self)@.wf(),
            ({
                let known = old(self)@.remote_known(link@.info.remote_cfg);
                if accepted {
                    final(self)@ == known.add(link@, now) && r == NewLink::Added(first_empty(known.links) as usize)
                } else {
                    &&& final(self)@ == known
                    &&& r == NewLink::Refused {
                        link,
                        reply: if link@.status.needs_tx_accepted {
                            Some(LinkMsg::Refused { reason: RefusedReason::LinkRefused })
                        } else {
                            None
                        },
                        reason: DisconnectReason::LinkFilter,
                    }
                }
            }),
    {
        let ghost before = self@;
        proof {
            lemma_remote_known_wf(before, link@.info.remote_cfg);
        }
        if self.info.remote_cfg.is_none() {
            self.info.remote_cfg = Some(link.info.remote_cfg);
        }
        assert(self@ =~= before.remote_known(link@.info.remote_cfg));
        if accepted {
            let id: usize = self.add_link(link, now);
            NewLink::Added(id)
        } else {
            let reply: Option<LinkMsg> = if link.status.needs_tx_accepted {
                Some(LinkMsg::Refused { reason: RefusedReason::LinkRefused })
            } else {
                None
            };
            NewLink::Refused { link, reply, reason: DisconnectReason::LinkFilter }
        }
    }

    /// Updates the statistics of all links.
    ///
    /// Returns the indices of the links whose published statistics have changed.
    #[verifier::rlimit(40)]
    pub fn publish_link_stats(&mut self, now: Instant) -> (r: Vec<usize>)
        requires
            old(self)@.wf(),
        ensures
            final(self)@ == old(self)@.map_links(|l: LinkState| l.stats_published(now)),
            r@ == ids_where(old(self)@.links, |l: LinkState| l.stats.any_over(now)),
            final(self)@.wf(),
    {
        let ghost before = self@;
        let ghost f = |l: LinkState| l.stats_published(now);
        let ghost cond = |l: LinkState| l.stats.any_over(now);
        let mut ids: Vec<usize> = Vec::new();
        let mut i: usize = 0;
        assert(before.links.take(0) =~= Seq::empty());
        while i < self.links.len()
            invariant
                before == old(self)@,
                before.wf(),
                f == (|l: LinkState| l.stats_published(now)),
                cond == (|l: LinkState| l.stats.any_over(now)),
                i <= before.links.len(),
                self@ == (TaskState { links: self@.links, ..before }),
                self@.links.len() == before.links.len(),
                ids@ == ids_where(before.links.take(i as int), cond),
                forall|k: int| 0 <= k < i ==> self@.links[k] == mapped(before.links[k], f),
                forall|k: int| i <= k < before.links.len() ==> self@.links[k] == before.links[k],
            decreases before.links.len() - i,
        {
            let ghost entries = self.links@;
            let ghost at = self@;
            assert(before.links.take(i + 1).drop_last() =~= before.links.take(i as int));
            assert(before.links.take(i + 1).last() == before.links[i as int]);
            assert(at.links[i as int] == link_entry(entries[i as int]));
            proof {
                if before.has(i as int) {
                    lemma_wf_link(before, i as int);
                }
            }
            if let Some(link) = &mut self.links[i] {
                if link.publish_stats(now) {
                    ids.push(i);
                }
            }
            proof {
                lemma_link_entries_update(entries, i as int, self.links@[i as int]);
                assert(self.links@ =~= entries.update(i as int, self.links@[i as int]));
                assert(link_entry(self.links@[i as int]) == mapped(at.links[i as int], f));
            }
            i += 1;
        }
        assert(before.links.take(i as int) =~= before.links);
        assert(self@.links =~= before.links.map_values(|l: Option<LinkState>| mapped(l, f)));
        proof {
            assert(harmless(f));
            lemma_map_links_wf(before, f);
        }
        ids
    }
}

} // verus!
