//! Handling of received messages.

use crate::agg::link_int::{DisconnectInitiator, LinkInt, LinkPinging, LinkState, LinkStatus, LinkUnacked};
use crate::agg::rx::{ReceivedReliableMsg, Place, RxState};
use crate::agg::rx::{lemma_forward_wf, lemma_store_wf};
use crate::agg::send::{lemma_link_replaced, lemma_remove_wf, lemma_unconfirm_wf};
use crate::agg::state::{may_idle, Task, TaskChannels, TaskErrors, TaskState};
use crate::agg::state::{
    lemma_flush_link_wf, lemma_frame_wf, lemma_not_idle_wf, lemma_set_link_wf, lemma_set_rx_wf, lemma_set_tx_wf,
    lemma_wf_buffers, lemma_wf_link,
};
use crate::agg::testing::lemma_tested_wf;
use crate::agg::tx::{leading_received, packet_size, total, weight, Confirmation, Tally, TxState};
use crate::agg::tx::{lemma_leading_received, lemma_receive_confirmed_wf, lemma_sweep_wf, lemma_total_update};
use crate::alc::SendError;
use crate::control::{DisconnectReason, NotWorkingReason};
use crate::error::ProtocolError;
use crate::msg::{LinkMsg, ReliableMsg};
use crate::seq::SeqNum;
use crate::time::{duration_between, Duration, Instant};
use bytes::Bytes;
use vstd::prelude::*;

verus! {

/// Roundtrip time estimate after a packet was acknowledged `elapsed` after it was sent.
///
/// The first estimate replaces the previous one. Later the estimate quickly follows
/// an increase and slowly follows a decrease.
pub open spec fn roundtrip_estimate(ping: LinkPinging, elapsed: Duration) -> Duration {
    if ping.roundtrip_estimates == Some(0usize) {
        elapsed
    } else if elapsed.nanos > ping.roundtrip.nanos {
        Duration { nanos: ((ping.roundtrip.nanos + 3 * elapsed.nanos) / 4) as u64 }
    } else {
        Duration { nanos: ((99 * ping.roundtrip.nanos + elapsed.nanos) / 100) as u64 }
    }
}

impl LinkState {
    /// Link after it may increase its limit of unacknowledged data again.
    ///
    /// This is the case when data has been received that was sent after the last increase.
    pub open spec fn increase_unblocked(self, seq: SeqNum) -> LinkState {
        match self.unacked.txed_unacked_data_limit_increased {
            Some(last_increased) => if seq.precedes(last_increased) {
                LinkState { ping: LinkPinging { roundtrip_estimates: Some(0), ..self.ping }, ..self }
            } else {
                LinkState {
                    unacked: LinkUnacked { txed_unacked_data_limit_increased: None, ..self.unacked },
                    ..self
                }
            },
            None => self,
        }
    }

    /// Link after the reception of a packet sent over it has been confirmed.
    pub open spec fn packet_confirmed(self, size: usize, elapsed: Duration) -> LinkState {
        LinkState {
            unacked: LinkUnacked {
                txed_unacked_data: (self.unacked.txed_unacked_data - size) as u64,
                ..self.unacked
            },
            ping: LinkPinging {
                roundtrip: roundtrip_estimate(self.ping, elapsed),
                roundtrip_estimates: match self.ping.roundtrip_estimates {
                    Some(n) if n < usize::MAX => Some((n + 1) as usize),
                    _ => self.ping.roundtrip_estimates,
                },
                ..self.ping
            },
            ..self
        }
    }

    /// Link after handling an acknowledgement.
    pub open spec fn ack_handled(self, seq: SeqNum, confirmation: Option<Confirmation>, now: Instant) -> LinkState {
        let link = self.increase_unblocked(seq);
        match confirmation {
            Some(Confirmation { size, sent: Some(sent) }) => link.packet_confirmed(size, duration_between(sent, now)),
            _ => link,
        }
    }

    /// Link after the reply to a ping has been received.
    pub open spec fn pong_received(self, ping_sent: Instant, now: Instant) -> LinkState {
        LinkState {
            ping: LinkPinging {
                current_ping_sent: None,
                roundtrip: duration_between(ping_sent, now),
                roundtrip_estimates: Some(1),
                last_ping: Some(now),
                ..self.ping
            },
            ..self
        }
    }

    /// Link that has queued an acknowledgement.
    pub open spec fn ack_queued(self, seq: SeqNum, now: Instant) -> LinkState {
        LinkState { acks: self.acks.push(seq), ..self.reporting_ready(now) }
    }
}

impl TaskState {
    /// State after handling an acknowledgement received over a link.
    pub open spec fn ack(self, id: usize, seq: SeqNum, now: Instant) -> TaskState {
        let confirmation = self.tx.confirmation(id as int, seq);
        let s = self.set_link(id as int, self.link(id as int).ack_handled(seq, confirmation, now));
        TaskState { tx: self.tx.ack(id as int, seq), ..s }
    }

    /// State after queueing an acknowledgement.
    pub open spec fn queue_ack(self, id: usize, seq: SeqNum, now: Instant) -> TaskState {
        self.not_idle(id).set_link(id as int, self.link(id as int).ack_queued(seq, now))
    }

    /// State after a message that was received for the first time has taken effect.
    ///
    /// Data and the end of data take effect when they are consumed.
    pub open spec fn effect(self, msg: ReliableMsg) -> Result<TaskState, ProtocolError> {
        match msg {
            ReliableMsg::Data(_) => if self.rx.overflows(msg, self.info.cfg.recv_buffer) {
                Err(ProtocolError::RecvBufferOverflow)
            } else {
                Ok(self)
            },
            ReliableMsg::SendFinish => Ok(self),
            ReliableMsg::Consumed(consumed) => if consumed <= self.tx.unconsumed {
                Ok(
                    TaskState {
                        tx: TxState { unconsumed: (self.tx.unconsumed - consumed) as u64, ..self.tx },
                        ..self
                    },
                )
            } else {
                Err(ProtocolError::ConsumedUnderflow)
            },
            ReliableMsg::ReceiveClose => Ok(
                TaskState {
                    errors: TaskErrors { write_error: SendError::Closed, ..self.errors },
                    chan: TaskChannels { write_closed: true, ..self.chan },
                    rx: RxState { force_ack: true, ..self.rx },
                    ..self
                },
            ),
            ReliableMsg::ReceiveFinish => Ok(
                TaskState {
                    errors: TaskErrors { write_error: SendError::Dropped, ..self.errors },
                    write_rx: None,
                    chan: TaskChannels { send_finish_sent: true, ..self.chan },
                    rx: RxState { force_ack: true, ..self.rx },
                    ..self
                },
            ),
        }
    }

    /// State and outcome after a reliable message has been received over a link.
    ///
    /// Its reception is acknowledged over the same link, also if it has been received before.
    pub open spec fn receive_reliable(self, id: usize, seq: SeqNum, msg: ReliableMsg, now: Instant) -> (
        TaskState,
        Result<(), ProtocolError>,
    ) {
        let s = self.queue_ack(id, seq, now);
        match s.rx.place(seq) {
            Err(err) => (s, Err(err)),
            Ok(Place::Known) => (TaskState { rx: s.rx.forward(), ..s }, Ok(())),
            Ok(Place::New(offset)) => match s.effect(msg) {
                Err(err) => (s, Err(err)),
                Ok(t) => (
                    TaskState { rx: t.rx.store(offset as int, ReceivedReliableMsg { seq, msg }).forward(), ..t },
                    Ok(()),
                ),
            },
        }
    }

    /// State after a request to disconnect a link.
    pub open spec fn start_disconnecting(self, id: usize, initiator: DisconnectInitiator, now: Instant) -> TaskState {
        let link = self.link(id as int);
        self.set_link(
            id as int,
            LinkState { status: LinkStatus { disconnecting: Some(initiator), ..link.status }, ..link },
        ).unconfirm(id, NotWorkingReason::Disconnecting, now)
    }

    /// State after the blocking of a link by one of the endpoints has changed.
    pub open spec fn block_changed(self, id: usize, status: LinkStatus, now: Instant) -> TaskState {
        self.not_idle(id).set_link(
            id as int,
            LinkState { status, ..self.link(id as int).reporting_ready(now) },
        )
    }

    /// State and outcome after a message has been received over a link.
    ///
    /// The outcome tells whether the connection is terminated.
    pub open spec fn receive_msg(self, id: usize, msg: LinkMsg, data: Option<Bytes>, now: Instant) -> (
        TaskState,
        Result<bool, ProtocolError>,
    ) {
        let link = self.link(id as int);
        match msg {
            LinkMsg::Ping => (
                self.set_link(
                    id as int,
                    LinkState { ping: LinkPinging { send_pong: true, ..link.ping }, ..link },
                ).flush_link(id, now),
                Ok(false),
            ),
            LinkMsg::Pong => match link.ping.current_ping_sent {
                Some(sent) => (
                    self.set_link(id as int, link.pong_received(sent, now)).tested(id, now),
                    Ok(false),
                ),
                None => (self, Ok(false)),
            },
            LinkMsg::Ack { received } => (self.ack(id, received, now), Ok(false)),
            LinkMsg::TestData { .. } => (self, Ok(false)),
            LinkMsg::SetBlock { blocked } => (
                self.block_changed(id, LinkStatus { remotely_blocked: blocked, ..link.status }, now),
                Ok(false),
            ),
            LinkMsg::Goodbye => match link.status.disconnecting {
                Some(DisconnectInitiator::Local) => if link.status.goodbye_sent {
                    (self.remove(id, DisconnectReason::LocallyRequested, now), Ok(false))
                } else {
                    (self, Ok(false))
                },
                Some(DisconnectInitiator::Remote) => (self, Err(ProtocolError::RepeatedGoodbye)),
                None => (self.start_disconnecting(id, DisconnectInitiator::Remote, now), Ok(false)),
            },
            LinkMsg::Terminate => (self, Ok(true)),
            _ => match ReliableMsg::of_link_msg(msg, data) {
                Some((reliable_msg, seq)) => {
                    let (s, r) = self.receive_reliable(id, seq, reliable_msg, now);
                    match r {
                        Ok(()) => (s, Ok(false)),
                        Err(err) => (s, Err(err)),
                    }
                },
                None => (self, Err(ProtocolError::UnexpectedMessage)),
            },
        }
    }
}

/// Handling an acknowledgement keeps the invariant.
pub proof fn lemma_ack_wf(s: TaskState, id: usize, seq: SeqNum, now: Instant)
    requires
        s.wf(),
        s.has(id as int),
    ensures
        s.ack(id, seq, now).wf(),
        forall|i: int| #![trigger s.ack(id, seq, now).has(i)] s.ack(id, seq, now).has(i) == s.has(i),
        s.tx.confirmation(id as int, seq) matches Some(Confirmation { size, sent: Some(_) })
            ==> size <= s.link(id as int).unacked.txed_unacked_data,
{
    reveal(TaskState::wf);
    let t = s.ack(id, seq, now);
    let send_buffer = s.info.cfg.send_buffer;
    if s.tx.confirms(id as int, seq) {
        let k = s.tx.index_of(seq)->0;
        let p = s.tx.packets[k];
        let c = s.tx.receive_confirmed(k);
        assert(packet_size(p) <= u32::MAX);
        lemma_receive_confirmed_wf(s.tx, k, send_buffer);
        lemma_sweep_wf(c, send_buffer);
        lemma_leading_received(c.packets);
        lemma_total_update(Tally::OnLink(id as int), s.tx.packets, k, c.packets[k]);
        assert(t.tx == c.sweep());
        assert forall|j: int| 0 <= j < c.packets.len() implies s.packet_link_wf(#[trigger] c.packets[j]) by {
            assert(s.packet_link_wf(s.tx.packets[j]));
        }
        assert forall|j: int| 0 <= j < t.tx.packets.len() implies t.packet_link_wf(#[trigger] t.tx.packets[j]) by {
            let n = leading_received(c.packets) as int;
            assert(t.tx.packets[j] == c.packets[j + n]);
            assert(s.packet_link_wf(c.packets[j + n]));
        }
        assert forall|i: int| #![trigger t.has(i)] t.has(i) implies t.link(i).wf() && t.link(
            i,
        ).unacked.txed_unacked_data == total(Tally::OnLink(i), t.tx.packets) by {
            assert(s.has(i));
            assert(total(Tally::OnLink(i), t.tx.packets) == total(Tally::OnLink(i), c.packets));
            assert(total(Tally::OnLink(i), c.packets) == total(Tally::OnLink(i), s.tx.packets) - weight(
                Tally::OnLink(i),
                p,
            ));
        }
    } else {
        lemma_sweep_wf(s.tx, send_buffer);
        lemma_leading_received(s.tx.packets);
        assert(t.tx == s.tx.sweep());
        assert forall|j: int| 0 <= j < t.tx.packets.len() implies t.packet_link_wf(#[trigger] t.tx.packets[j]) by {
            let n = leading_received(s.tx.packets) as int;
            assert(t.tx.packets[j] == s.tx.packets[j + n]);
            assert(s.packet_link_wf(s.tx.packets[j + n]));
        }
        assert forall|i: int| #![trigger t.has(i)] t.has(i) implies t.link(i).wf() && t.link(
            i,
        ).unacked.txed_unacked_data == total(Tally::OnLink(i), t.tx.packets) by {
            assert(s.has(i));
        }
    }
    assert forall|i: usize| #![trigger t.idle.contains(i)] t.idle.contains(i) implies t.has(i as int) && may_idle(
        t.link(i as int),
    ) by {
        assert(s.idle.contains(i));
    }
    assert forall|i: usize| #![trigger t.unflushed.contains(i)] t.unflushed.contains(i) implies t.has(i as int) by {
        assert(s.unflushed.contains(i));
    }
}

/// Queueing an acknowledgement keeps the invariant.
pub proof fn lemma_queue_ack_wf(s: TaskState, id: usize, seq: SeqNum, now: Instant)
    requires
        s.wf(),
        s.has(id as int),
    ensures
        s.queue_ack(id, seq, now).wf(),
        s.queue_ack(id, seq, now).has(id as int),
{
    lemma_wf_link(s, id as int);
    lemma_not_idle_wf(s, id);
    assert(s.not_idle(id).has(id as int));
    lemma_set_link_wf(s.not_idle(id), id as int, s.link(id as int).ack_queued(seq, now));
}

/// A message taking effect keeps the invariant.
proof fn lemma_effect_wf(s: TaskState, msg: ReliableMsg)
    requires
        s.wf(),
        s.effect(msg) is Ok,
    ensures
        s.effect(msg)->Ok_0.wf(),
        s.effect(msg)->Ok_0.links == s.links,
        s.effect(msg)->Ok_0.info == s.info,
        s.effect(msg)->Ok_0.rx == (RxState { force_ack: s.effect(msg)->Ok_0.rx.force_ack, ..s.rx }),
{
    let t = s.effect(msg)->Ok_0;
    lemma_wf_buffers(s);
    match msg {
        ReliableMsg::Data(_) | ReliableMsg::SendFinish => {},
        ReliableMsg::Consumed(consumed) => {
            let tx = TxState { unconsumed: (s.tx.unconsumed - consumed) as u64, ..s.tx };
            assert forall|k: int| 0 <= k < tx.packets.len() implies s.packet_link_wf(#[trigger] tx.packets[k]) by {
                reveal(TaskState::wf);
                assert(s.packet_link_wf(s.tx.packets[k]));
            }
            lemma_set_tx_wf(s, tx);
        },
        ReliableMsg::ReceiveClose => {
            let f = TaskState { errors: t.errors, chan: t.chan, ..s };
            lemma_frame_wf(s, f);
            lemma_set_rx_wf(f, t.rx);
        },
        ReliableMsg::ReceiveFinish => {
            let f = TaskState { errors: t.errors, chan: t.chan, write_rx: t.write_rx, ..s };
            lemma_frame_wf(s, f);
            lemma_set_rx_wf(f, t.rx);
        },
    }
}

/// Receiving a reliable message keeps the invariant.
pub proof fn lemma_receive_reliable_wf(s: TaskState, id: usize, seq: SeqNum, msg: ReliableMsg, now: Instant)
    requires
        s.wf(),
        s.has(id as int),
    ensures
        s.receive_reliable(id, seq, msg, now).0.wf(),
{
    let q = s.queue_ack(id, seq, now);
    lemma_queue_ack_wf(s, id, seq, now);
    lemma_wf_buffers(q);
    let recv_buffer = s.info.cfg.recv_buffer;
    match q.rx.place(seq) {
        Err(_) => {},
        Ok(Place::Known) => {
            lemma_forward_wf(q.rx, recv_buffer);
            lemma_set_rx_wf(q, q.rx.forward());
        },
        Ok(Place::New(offset)) => {
            if q.effect(msg) is Ok {
                let t = q.effect(msg)->Ok_0;
                lemma_effect_wf(q, msg);
                lemma_wf_buffers(t);
                assert(t.rx.place(seq) == q.rx.place(seq));
                assert(!t.rx.overflows(msg, recv_buffer));
                lemma_store_wf(t.rx, seq, msg, recv_buffer);
                let stored = t.rx.store(offset as int, ReceivedReliableMsg { seq, msg });
                lemma_forward_wf(stored, recv_buffer);
                lemma_set_rx_wf(t, stored.forward());
            }
        },
    }
}

/// A change of the blocking of a link keeps the invariant.
pub proof fn lemma_block_changed_wf(s: TaskState, id: usize, status: LinkStatus, now: Instant)
    requires
        s.wf(),
        s.has(id as int),
        status.test == s.link(id as int).status.test,
        status.unconfirmed == s.link(id as int).status.unconfirmed,
    ensures
        s.block_changed(id, status, now).wf(),
{
    lemma_wf_link(s, id as int);
    lemma_not_idle_wf(s, id);
    assert(s.not_idle(id).has(id as int));
    lemma_set_link_wf(
        s.not_idle(id),
        id as int,
        LinkState { status, ..s.link(id as int).reporting_ready(now) },
    );
}

/// A request to disconnect a link keeps the invariant.
pub proof fn lemma_start_disconnecting_wf(s: TaskState, id: usize, initiator: DisconnectInitiator, now: Instant)
    requires
        s.wf(),
        s.has(id as int),
    ensures
        s.start_disconnecting(id, initiator, now).wf(),
{
    let link = s.link(id as int);
    let l = LinkState { status: LinkStatus { disconnecting: Some(initiator), ..link.status }, ..link };
    lemma_wf_link(s, id as int);
    lemma_set_link_wf(s, id as int, l);
    lemma_unconfirm_wf(s.set_link(id as int, l), id, NotWorkingReason::Disconnecting, now);
}

/// Receiving a message keeps the invariant.
pub proof fn lemma_receive_msg_wf(s: TaskState, id: usize, msg: LinkMsg, data: Option<Bytes>, now: Instant)
    requires
        s.wf(),
        s.has(id as int),
    ensures
        s.receive_msg(id, msg, data, now).0.wf(),
{
    let link = s.link(id as int);
    lemma_wf_link(s, id as int);
    match msg {
        LinkMsg::Ping => {
            let l = LinkState { ping: LinkPinging { send_pong: true, ..link.ping }, ..link };
            lemma_set_link_wf(s, id as int, l);
            lemma_flush_link_wf(s.set_link(id as int, l), id, now);
        },
        LinkMsg::Pong => {
            if let Some(sent) = link.ping.current_ping_sent {
                let l = link.pong_received(sent, now);
                lemma_set_link_wf(s, id as int, l);
                lemma_tested_wf(s.set_link(id as int, l), id, now);
            }
        },
        LinkMsg::Ack { received } => {
            lemma_ack_wf(s, id, received, now);
        },
        LinkMsg::SetBlock { blocked } => {
            lemma_block_changed_wf(s, id, LinkStatus { remotely_blocked: blocked, ..link.status }, now);
        },
        LinkMsg::Goodbye => {
            lemma_remove_wf(s, id, DisconnectReason::LocallyRequested, now);
            lemma_start_disconnecting_wf(s, id, DisconnectInitiator::Remote, now);
        },
        _ => {
            if let Some((reliable_msg, seq)) = ReliableMsg::of_link_msg(msg, data) {
                lemma_receive_reliable_wf(s, id, seq, reliable_msg, now);
            }
        },
    }
}

impl LinkInt {
    /// Allows the link to increase its limit of unacknowledged data again, if data has been received
    /// that was sent after the last increase.
    fn unblock_increase(&mut self, seq: SeqNum)
        ensures
            final(self)@ == old(self)@.increase_unblocked(seq),
    {
        if let Some(last_increased) = self.unacked.txed_unacked_data_limit_increased {
            if seq < last_increased {
                self.ping.roundtrip_estimates = Some(0);
            } else {
                self.unacked.txed_unacked_data_limit_increased = None;
            }
        }
    }

    /// Roundtrip time estimate after a packet was acknowledged `elapsed` after it was sent.
    fn estimate_roundtrip(&self, elapsed: Duration) -> (r: Duration)
        ensures
            r == roundtrip_estimate(self@.ping, elapsed),
    {
        let first: bool = match self.ping.roundtrip_estimates {
            Some(n) => n == 0,
            None => false,
        };
        let roundtrip: u128 = self.ping.roundtrip.nanos as u128;
        let measured: u128 = elapsed.nanos as u128;
        if first {
            elapsed
        } else if measured > roundtrip {
            Duration { nanos: ((roundtrip + 3 * measured) / 4) as u64 }
        } else {
            Duration { nanos: ((99 * roundtrip + measured) / 100) as u64 }
        }
    }

    /// Records that the reception of a packet sent over this link has been confirmed.
    fn record_confirmed(&mut self, size: usize, elapsed: Duration)
        requires
            size <= old(self)@.unacked.txed_unacked_data,
        ensures
            final(self)@ == old(self)@.packet_confirmed(size, elapsed),
    {
        self.unacked.txed_unacked_data = self.unacked.txed_unacked_data - size as u64;
        self.ping.roundtrip = self.estimate_roundtrip(elapsed);
        if let Some(n) = self.ping.roundtrip_estimates {
            self.ping.roundtrip_estimates = Some(n.saturating_add(1));
        }
    }

    /// Handles an acknowledgement received over this link.
    fn on_ack(&mut self, seq: SeqNum, confirmation: Option<Confirmation>, now: Instant)
        requires
            confirmation matches Some(Confirmation { size, sent: Some(_) }) ==> size
                <= old(self)@.unacked.txed_unacked_data,
        ensures
            final(self)@ == old(self)@.ack_handled(seq, confirmation, now),
    {
        self.unblock_increase(seq);
        if let Some(c) = confirmation {
            if let Some(sent) = c.sent {
                self.record_confirmed(c.size, sent.elapsed(now));
            }
        }
    }

    /// Handles the reply to a ping.
    ///
    /// Returns whether a ping was outstanding.
    fn on_pong(&mut self, now: Instant) -> (r: bool)
        ensures
            r == (old(self)@.ping.current_ping_sent is Some),
            final(self)@ == match old(self)@.ping.current_ping_sent {
                Some(sent) => old(self)@.pong_received(sent, now),
                None => old(self)@,
            },
    {
        match self.ping.current_ping_sent {
            Some(sent) => {
                self.ping.current_ping_sent = None;
                self.ping.roundtrip = sent.elapsed(now);
                self.ping.roundtrip_estimates = Some(1);
                self.ping.last_ping = Some(now);
                true
            },
            None => false,
        }
    }

    /// Queues an acknowledgement.
    fn queue_ack(&mut self, seq: SeqNum, now: Instant)
        ensures
            final(self)@ == old(self)@.ack_queued(seq, now),
    {
        self.tx_ack_queue.push_back(seq);
        self.report_ready(now);
    }
}

impl Task {
    /// Handles a received acknowledgement.
    pub fn handle_ack(&mut self, id: usize, rxed_seq: SeqNum, now: Instant)
        requires
            old(self)@.wf(),
            old(self)@.has(id as int),
        ensures
            final(self)@ == old(self)@.ack(id, rxed_seq, now),
            final(self)@.wf(),
    {
        let ghost before = self@;
        proof {
            lemma_ack_wf(before, id, rxed_seq, now);
            lemma_wf_buffers(before);
            assert(before.tx.wf(before.info.cfg.send_buffer));
        }
        let confirmation: Option<Confirmation> = self.tx.handle_ack(id, rxed_seq);
        let ghost entries = self.links@;
        if let Some(link) = &mut self.links[id] {
            link.on_ack(rxed_seq, confirmation, now);
        }
        proof {
            lemma_link_replaced(entries, self.links@, id as int, self.links@[id as int]->0);
        }
        assert(self@ =~= before.ack(id, rxed_seq, now));
    }

    /// Makes a message that was received for the first time take effect.
    fn apply_effect(&mut self, msg: &ReliableMsg) -> (r: Result<(), ProtocolError>)
        requires
            old(self)@.rx.wf(old(self)@.info.cfg.recv_buffer),
        ensures
            match old(self)@.effect(*msg) {
                Ok(s) => r is Ok && final(self)@ == s,
                Err(err) => r == Err::<(), ProtocolError>(err) && final(self)@ == old(self)@,
            },
    {
        match msg {
            ReliableMsg::Data(_) => {
                if self.rx.would_overflow(msg, &self.info.cfg) {
                    return Err(ProtocolError::RecvBufferOverflow);
                }
            },
            ReliableMsg::SendFinish => {
                // Handled during consumption.
            },
            ReliableMsg::Consumed(consumed) => {
                if !self.tx.record_consumed(*consumed) {
                    return Err(ProtocolError::ConsumedUnderflow);
                }
            },
            ReliableMsg::ReceiveClose => {
                self.errors.write_error = SendError::Closed;
                self.chan.write_closed = true;
                self.rx.rxed_reliable_consumed_force_ack = true;
            },
            ReliableMsg::ReceiveFinish => {
                self.errors.write_error = SendError::Dropped;
                self.write_rx = None;
                self.chan.send_finish_sent = true;
                self.rx.rxed_reliable_consumed_force_ack = true;
            },
        }
        Ok(())
    }

    /// Queues an acknowledgement over the specified link.
    fn queue_ack(&mut self, id: usize, seq: SeqNum, now: Instant)
        requires
            old(self)@.has(id as int),
        ensures
            final(self)@ == old(self)@.queue_ack(id, seq, now),
    {
        let ghost entries = self.links@;
        if let Some(link) = &mut self.links[id] {
            link.queue_ack(seq, now);
        }
        proof {
            lemma_link_replaced(entries, self.links@, id as int, self.links@[id as int]->0);
        }
        self.remove_idle(id);
        assert(self@ =~= old(self)@.queue_ack(id, seq, now));
    }

    /// Handle received data.
    #[verifier::rlimit(40)]
    pub fn handle_received_reliable_msg(
        &mut self,
        id: usize,
        seq: SeqNum,
        msg: ReliableMsg,
        now: Instant,
    ) -> (r: Result<(), ProtocolError>)
        requires
            old(self)@.wf(),
            old(self)@.has(id as int),
        ensures
            (final(self)@, r) == old(self)@.receive_reliable(id, seq, msg, now),
            final(self)@.wf(),
    {
        let ghost before = self@;
        proof {
            lemma_receive_reliable_wf(before, id, seq, msg, now);
            lemma_queue_ack_wf(before, id, seq, now);
        }

        // Update link and queue sending of ack.
        self.queue_ack(id, seq, now);
        let ghost queued = self@;
        proof {
            lemma_wf_buffers(queued);
        }

        match self.rx.find_place(seq) {
            Err(err) => return Err(err),
            Ok(Place::Known) => {
                // The sequence number belongs to a packet that has already been received. Thus the
                // acknowledgement has been lost and must be resend.
            },
            Ok(Place::New(offset)) => {
                match self.apply_effect(&msg) {
                    Err(err) => return Err(err),
                    Ok(()) => {},
                }
                proof {
                    lemma_effect_wf(queued, msg);
                    lemma_wf_buffers(self@);
                    assert(self@.rx.place(seq) == queued.rx.place(seq));
                    lemma_store_wf(self@.rx, seq, msg, before.info.cfg.recv_buffer);
                }
                self.rx.store_msg(offset, ReceivedReliableMsg { seq, msg });
            },
        }

        // Forward received messages that are ready for consumption.
        self.rx.forward_ready();
        assert(self@ =~= before.receive_reliable(id, seq, msg, now).0);
        Ok(())
    }

    /// Starts disconnection of a link.
    pub fn start_disconnecting(&mut self, id: usize, initiator: DisconnectInitiator, now: Instant)
        requires
            old(self)@.wf(),
            old(self)@.has(id as int),
        ensures
            final(self)@ == old(self)@.start_disconnecting(id, initiator, now),
            final(self)@.wf(),
    {
        let ghost before = self@;
        let ghost entries = self.links@;
        if let Some(link) = &mut self.links[id] {
            link.status.disconnecting = Some(initiator);
        }
        proof {
            lemma_link_replaced(entries, self.links@, id as int, self.links@[id as int]->0);
            let link = before.link(id as int);
            lemma_wf_link(before, id as int);
            lemma_set_link_wf(
                before,
                id as int,
                LinkState { status: LinkStatus { disconnecting: Some(initiator), ..link.status }, ..link },
            );
        }
        self.unconfirm_link(id, NotWorkingReason::Disconnecting, now);
    }

    /// Handles a reply to a ping.
    fn handle_pong(&mut self, id: usize, now: Instant)
        requires
            old(self)@.wf(),
            old(self)@.has(id as int),
        ensures
            final(self)@ == match old(self)@.link(id as int).ping.current_ping_sent {
                Some(sent) => old(self)@.set_link(
                    id as int,
                    old(self)@.link(id as int).pong_received(sent, now),
                ).tested(id, now),
                None => old(self)@,
            },
            final(self)@.wf(),
    {
        let ghost before = self@;
        let ghost entries = self.links@;
        let mut pinged: bool = false;
        if let Some(link) = &mut self.links[id] {
            pinged = link.on_pong(now);
        }
        proof {
            lemma_link_replaced(entries, self.links@, id as int, self.links@[id as int]->0);
            lemma_wf_link(before, id as int);
            lemma_set_link_wf(before, id as int, self.links@[id as int]->0@);
        }
        if pinged {
            let _ = self.link_testing_step(id, now);
        } else {
            assert(self@ =~= before);
        }
    }

    /// Handles a ping.
    fn handle_ping(&mut self, id: usize, now: Instant)
        requires
            old(self)@.wf(),
            old(self)@.has(id as int),
        ensures
            ({
                let link = old(self)@.link(id as int);
                final(self)@ == old(self)@.set_link(
                    id as int,
                    LinkState { ping: LinkPinging { send_pong: true, ..link.ping }, ..link },
                ).flush_link(id, now)
            }),
            final(self)@.wf(),
    {
        let ghost before = self@;
        let ghost entries = self.links@;
        if let Some(link) = &mut self.links[id] {
            link.ping.send_pong = true;
        }
        proof {
            lemma_link_replaced(entries, self.links@, id as int, self.links@[id as int]->0);
            lemma_wf_link(before, id as int);
            lemma_set_link_wf(before, id as int, self.links@[id as int]->0@);
        }
        self.flush_link(id, now);
    }

    /// Handles that the remote endpoint blocked or unblocked a link.
    fn handle_set_block(&mut self, id: usize, blocked: bool, now: Instant)
        requires
            old(self)@.wf(),
            old(self)@.has(id as int),
        ensures
            final(self)@ == old(self)@.block_changed(
                id,
                LinkStatus { remotely_blocked: blocked, ..old(self)@.link(id as int).status },
                now,
            ),
            final(self)@.wf(),
    {
        let ghost before = self@;
        let ghost status = LinkStatus { remotely_blocked: blocked, ..before.link(id as int).status };
        proof {
            lemma_block_changed_wf(before, id, status, now);
        }
        let ghost entries = self.links@;
        if let Some(link) = &mut self.links[id] {
            link.status.remotely_blocked = blocked;
            link.report_ready(now);
        }
        proof {
            lemma_link_replaced(entries, self.links@, id as int, self.links@[id as int]->0);
        }
        self.remove_idle(id);
        assert(self@ =~= before.block_changed(id, status, now));
    }

    /// Handles a request of the remote endpoint to disconnect a link or its reply to such a request.
    fn handle_goodbye(&mut self, id: usize, now: Instant) -> (r: Result<bool, ProtocolError>)
        requires
            old(self)@.wf(),
            old(self)@.has(id as int),
        ensures
            (final(self)@, r) == old(self)@.receive_msg(id, LinkMsg::Goodbye, None, now),
            final(self)@.wf(),
    {
        let (disconnecting, goodbye_sent): (Option<DisconnectInitiator>, bool) = match &self.links[id] {
            Some(link) => (link.status.disconnecting, link.status.goodbye_sent),
            None => (None, false),
        };
        match disconnecting {
            Some(DisconnectInitiator::Local) => {
                if goodbye_sent {
                    // Remote endpoint has received all our previous message, our goodbye and
                    // finished sending all outstanding messages.
                    self.remove_link(id, DisconnectReason::LocallyRequested, now);
                }
                Ok(false)
            },
            Some(DisconnectInitiator::Remote) => Err(ProtocolError::RepeatedGoodbye),
            None => {
                // Remote endpoint is initiating disconnection.
                self.start_disconnecting(id, DisconnectInitiator::Remote, now);
                Ok(false)
            },
        }
    }

    /// Handle a received message.
    ///
    /// Returns whether task should terminate.
    #[verifier::rlimit(40)]
    pub fn handle_received_msg(
        &mut self,
        id: usize,
        msg: LinkMsg,
        data: Option<Bytes>,
        now: Instant,
    ) -> (r: Result<bool, ProtocolError>)
        requires
            old(self)@.wf(),
            old(self)@.has(id as int),
            msg is Data ==> data is Some,
        ensures
            (final(self)@, r) == old(self)@.receive_msg(id, msg, data, now),
            final(self)@.wf(),
    {
        match msg {
            LinkMsg::Ping => {
                // Respond with pong on same link.
                self.handle_ping(id, now);
                Ok(false)
            },
            LinkMsg::Pong => {
                self.handle_pong(id, now);
                Ok(false)
            },
            LinkMsg::Ack { received } => {
                self.handle_ack(id, received, now);
                Ok(false)
            },
            LinkMsg::TestData { .. } => Ok(false),
            LinkMsg::SetBlock { blocked } => {
                self.handle_set_block(id, blocked, now);
                Ok(false)
            },
            LinkMsg::Goodbye => self.handle_goodbye(id, now),
            LinkMsg::Terminate => Ok(true),
            msg => match ReliableMsg::from_link_msg(msg, data) {
                Some((reliable_msg, seq)) => match self.handle_received_reliable_msg(id, seq, reliable_msg, now) {
                    Ok(()) => Ok(false),
                    Err(err) => Err(err),
                },
                None => Err(ProtocolError::UnexpectedMessage),
            },
        }
    }
}

} // verus!
