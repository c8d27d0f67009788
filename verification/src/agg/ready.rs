//! Sending over a link that has become ready.

use crate::agg::link_int::{DisconnectInitiator, LinkPinging, LinkState, LinkStatus};
use crate::agg::rx::RxState;
use crate::agg::send::lemma_link_replaced;
use crate::agg::send::{lemma_remove_wf, lemma_resend_reliable_wf, lemma_send_msg_wf, lemma_send_reliable_wf};
use crate::agg::state::{lemma_flush_link_wf, lemma_frame_wf, lemma_set_link_wf, lemma_set_rx_wf};
use crate::agg::state::{lemma_wf_buffers, lemma_wf_link};
use crate::agg::state::{may_idle, SendReq, Task, TaskChannels, TaskState};
use crate::control::DisconnectReason;
use crate::id::LinkId;
use crate::msg::{LinkMsg, ReliableMsg};
use crate::peekable_mpsc::PeekableReceiver;
use crate::seq::SeqNum;
use crate::time::Instant;
use bytes::Bytes;
use vstd::prelude::*;

verus! {

/// What may be sent until the next event has been handled.
#[derive(Clone, Copy, Debug, PartialEq, Eq, Structural)]
pub struct SendFlags {
    /// Whether sending a Consumed message is required.
    pub consume_ack_required: bool,
    /// Whether a sequence number is available for sending.
    pub tx_seq_avail: bool,
    /// Space available in buffers necessary for sending data.
    pub tx_space: u64,
    /// Whether packets are waiting to be resent.
    pub resending: bool,
    /// Link over which the next packet to resend must not be resent.
    pub non_resendable: Option<LinkId>,
    /// Idle link over which data can be sent.
    pub sendable: Option<usize>,
    /// Idle link over which the next packet can be resent.
    pub resendable: Option<usize>,
}

/// The size of the consumed data as it is sent to the remote endpoint.
pub open spec fn consumed_size(consumed: u64) -> u32 {
    (consumed % 0x1_0000_0000) as u32
}

/// Data waiting to be sent, if it fits into the available space.
pub open spec fn data_to_send(write_rx: Option<PeekableReceiver<SendReq>>, space: u64) -> Option<Bytes> {
    match write_rx {
        Some(PeekableReceiver { peeked: Some(SendReq::Send(data)) }) if ReliableMsg::Data(data).spec_size()
            <= space => Some(data),
        _ => None,
    }
}

impl TaskState {
    /// Whether what may be sent is in accordance with the buffers and the idle links.
    pub open spec fn allows(self, flags: SendFlags) -> bool {
        &&& (flags.tx_seq_avail ==> self.tx.seq_avail())
        &&& flags.tx_space <= self.tx_space()
        &&& (flags.resending ==> self.tx.resend_queue.len() > 0 && flags.non_resendable == self.tx.non_resendable())
        &&& (flags.sendable matches Some(id) ==> self.idle.contains(id))
        &&& (flags.resendable matches Some(id) ==> self.idle.contains(id) && Some(self.link(id as int).info.link_id)
            != flags.non_resendable)
    }

    /// State after sending a control message over a link, which then has the specified status.
    pub open spec fn send_control(
        self,
        id: usize,
        msg: LinkMsg,
        status: LinkStatus,
        ping: LinkPinging,
        now: Instant,
    ) -> TaskState {
        let s = self.send_msg(id, msg, None, now);
        s.set_link(id as int, LinkState { status, ping, ..s.link(id as int) })
    }

    /// State after sending the oldest queued acknowledgement over a link.
    pub open spec fn send_ack(self, id: usize, now: Instant) -> TaskState {
        let link = self.link(id as int);
        self.set_link(id as int, LinkState { acks: link.acks.drop_first(), ..link }).send_msg(
            id,
            LinkMsg::Ack { received: link.acks[0] },
            None,
            now,
        )
    }

    /// State after sending the size of consumed data over a link.
    #[verifier::opaque]
    pub open spec fn send_consumed(self, id: usize, now: Instant) -> TaskState {
        let s = self.send_reliable(id, ReliableMsg::Consumed(consumed_size(self.rx.consumed)), now);
        TaskState { rx: RxState { consumed: 0, force_ack: false, ..s.rx }, ..s }
    }

    /// State after sending a message that closes a channel over a link.
    pub open spec fn send_closing(self, id: usize, msg: ReliableMsg, now: Instant) -> TaskState {
        let s = self.send_reliable(id, msg, now);
        TaskState {
            chan: TaskChannels {
                receive_close_sent: self.chan.receive_close_sent || msg is ReceiveClose,
                receive_finish_sent: self.chan.receive_finish_sent || msg is ReceiveFinish,
                send_finish_sent: self.chan.send_finish_sent || msg is SendFinish,
                ..s.chan
            },
            ..s
        }
    }

    /// State after sending user data over a link.
    #[verifier::opaque]
    pub open spec fn send_data(self, id: usize, data: Bytes, now: Instant) -> TaskState {
        TaskState { write_rx: Some(PeekableReceiver { peeked: None }), ..self }.send_reliable(
            id,
            ReliableMsg::Data(data),
            now,
        )
    }

    /// Message that must be sent because a channel was closed, if any.
    pub open spec fn closing_msg(self) -> Option<ReliableMsg> {
        if !self.chan.read_closed_open && !self.chan.receive_close_sent {
            Some(ReliableMsg::ReceiveClose)
        } else if !self.chan.read_open && !self.chan.receive_finish_sent {
            Some(ReliableMsg::ReceiveFinish)
        } else if self.write_rx is None && !self.chan.send_finish_sent {
            Some(ReliableMsg::SendFinish)
        } else {
            None
        }
    }

    /// State after a link has become idle.
    pub open spec fn become_idle(self, id: usize, now: Instant) -> TaskState {
        if self.idle.contains(id) {
            self
        } else {
            TaskState { idle: self.idle.push(id), ..self.set_link(id as int, self.link(id as int).idle(now)) }
        }
    }

    /// State after sending the reliable message with the highest priority over a working link.
    pub open spec fn send_by_priority(self, id: usize, flags: SendFlags, now: Instant) -> TaskState {
        let link = self.link(id as int);
        if flags.consume_ack_required && flags.tx_seq_avail {
            self.send_consumed(id, now)
        } else if flags.resending && link.is_sendable() && flags.non_resendable != Some(link.info.link_id) {
            self.resend_reliable(id, now)
        } else if flags.tx_seq_avail && self.closing_msg() is Some {
            self.send_closing(id, self.closing_msg()->0, now)
        } else if flags.tx_seq_avail && link.is_sendable() && data_to_send(self.write_rx, flags.tx_space) is Some {
            self.send_data(id, data_to_send(self.write_rx, flags.tx_space)->0, now)
        } else if link.needs_flush() && !link.is_sendable() {
            self.flush_link(id, now)
        } else {
            self.become_idle(id, now)
        }
    }

    /// State after a link has become ready for sending.
    #[verifier::opaque]
    pub open spec fn tx_ready(self, id: usize, flags: SendFlags, now: Instant) -> TaskState {
        let link = self.link(id as int);
        if link.status.needs_tx_accepted {
            self.send_control(
                id,
                LinkMsg::Accepted,
                LinkStatus { needs_tx_accepted: false, ..link.status },
                link.ping,
                now,
            )
        } else if link.ping.send_pong {
            self.send_control(id, LinkMsg::Pong, link.status, LinkPinging { send_pong: false, ..link.ping }, now)
        } else if link.status.disconnecting is Some {
            if !link.status.goodbye_sent {
                self.send_control(
                    id,
                    LinkMsg::Goodbye,
                    LinkStatus { goodbye_sent: true, ..link.status },
                    link.ping,
                    now,
                )
            } else if link.status.disconnecting == Some(DisconnectInitiator::Remote) {
                self.remove(id, DisconnectReason::RemotelyRequested, now)
            } else {
                self
            }
        } else if link.ping.send_ping {
            self.send_control(
                id,
                LinkMsg::Ping,
                link.status,
                LinkPinging { current_ping_sent: Some(now), send_ping: false, ..link.ping },
                now,
            )
        } else if link.status.blocked != link.status.blocked_sent {
            self.send_control(
                id,
                LinkMsg::SetBlock { blocked: link.status.blocked },
                LinkStatus { blocked_sent: link.status.blocked, ..link.status },
                link.ping,
                now,
            )
        } else if link.acks.len() > 0 {
            self.send_ack(id, now)
        } else if link.is_working() {
            self.send_by_priority(id, flags, now)
        } else if link.needs_flush() || link.need_ack_flush() {
            self.flush_link(id, now)
        } else {
            self
        }
    }
}

/// Sending a control message keeps the invariant.
pub proof fn lemma_send_control_wf(
    s: TaskState,
    id: usize,
    msg: LinkMsg,
    status: LinkStatus,
    ping: LinkPinging,
    now: Instant,
)
    requires
        s.wf(),
        s.has(id as int),
        !(msg is Welcome),
        !(msg is Connect),
        status.test == s.link(id as int).status.test,
        status.unconfirmed == s.link(id as int).status.unconfirmed,
    ensures
        s.send_control(id, msg, status, ping, now).wf(),
{
    lemma_send_msg_wf(s, id, msg, None, now);
    let t = s.send_msg(id, msg, None, now);
    lemma_wf_link(t, id as int);
    lemma_set_link_wf(t, id as int, LinkState { status, ping, ..t.link(id as int) });
}

/// Sending an acknowledgement keeps the invariant.
pub proof fn lemma_send_ack_wf(s: TaskState, id: usize, now: Instant)
    requires
        s.wf(),
        s.has(id as int),
        s.link(id as int).acks.len() > 0,
    ensures
        s.send_ack(id, now).wf(),
{
    let link = s.link(id as int);
    lemma_wf_link(s, id as int);
    let popped = LinkState { acks: link.acks.drop_first(), ..link };
    assert(s.idle.contains(id) ==> may_idle(popped));
    lemma_set_link_wf(s, id as int, popped);
    lemma_send_msg_wf(s.set_link(id as int, popped), id, LinkMsg::Ack { received: link.acks[0] }, None, now);
}

/// A link becoming idle keeps the invariant.
pub proof fn lemma_become_idle_wf(s: TaskState, id: usize, now: Instant)
    requires
        s.wf(),
        s.has(id as int),
        may_idle(s.link(id as int)),
    ensures
        s.become_idle(id, now).wf(),
{
    if !s.idle.contains(id) {
        let link = s.link(id as int);
        lemma_wf_link(s, id as int);
        let s1 = s.set_link(id as int, link.idle(now));
        lemma_set_link_wf(s, id as int, link.idle(now));
        let t = s.become_idle(id, now);
        reveal(TaskState::wf);
        assert forall|i: int| #![trigger t.has(i)] t.has(i) implies t.link(i).wf() && t.link(
            i,
        ).unacked.txed_unacked_data == crate::agg::tx::total(crate::agg::tx::Tally::OnLink(i), t.tx.packets) by {
            assert(s1.has(i));
        }
        assert forall|k: int| 0 <= k < t.tx.packets.len() implies t.packet_link_wf(#[trigger] t.tx.packets[k]) by {
            assert(s1.packet_link_wf(s1.tx.packets[k]));
        }
        assert forall|i: usize| #![trigger t.idle.contains(i)] t.idle.contains(i) implies t.has(i as int) && may_idle(
            t.link(i as int),
        ) by {
            if i != id {
                let k = choose|k: int| 0 <= k < t.idle.len() && t.idle[k] == i;
                assert(s.idle[k] == i);
                assert(s1.idle.contains(i));
            }
        }
        assert(t.idle.no_duplicates()) by {
            assert forall|a: int, b: int| 0 <= a < t.idle.len() && 0 <= b < t.idle.len() && a != b implies t.idle[a]
                != t.idle[b] by {
                if a < s.idle.len() {
                    assert(s.idle.contains(s.idle[a]));
                }
                if b < s.idle.len() {
                    assert(s.idle.contains(s.idle[b]));
                }
            }
        }
        assert forall|i: usize| #![trigger t.unflushed.contains(i)] t.unflushed.contains(i) implies t.has(i as int) by {
            assert(s1.unflushed.contains(i));
        }
    }
}

/// Sending a reliable message without data is possible as long as a sequence number is available.
proof fn lemma_send_small_wf(s: TaskState, id: usize, msg: ReliableMsg, now: Instant)
    requires
        s.wf(),
        s.has(id as int),
        s.tx.seq_avail(),
        !(msg is Data),
    ensures
        msg.spec_size() == 0,
        s.send_reliable(id, msg, now).wf(),
{
    lemma_send_reliable_wf(s, id, msg, now);
}

/// Sending the size of consumed data keeps the invariant.
pub proof fn lemma_send_consumed_wf(s: TaskState, id: usize, now: Instant)
    requires
        s.wf(),
        s.has(id as int),
        s.tx.seq_avail(),
    ensures
        s.send_consumed(id, now).wf(),
{
    reveal(TaskState::send_consumed);
    let msg = ReliableMsg::Consumed(consumed_size(s.rx.consumed));
    lemma_send_small_wf(s, id, msg, now);
    let t = s.send_reliable(id, msg, now);
    lemma_wf_buffers(t);
    lemma_set_rx_wf(t, RxState { consumed: 0, force_ack: false, ..t.rx });
}

/// Sending a reliable message does not change the status of the channels.
proof fn lemma_send_keeps_channels(s: TaskState, id: usize, msg: ReliableMsg, now: Instant)
    ensures
        s.send_reliable(id, msg, now).chan == s.chan,
{
    reveal(TaskState::send_msg);
}

/// Sending a message that closes a channel keeps the invariant.
pub proof fn lemma_send_closing_wf(s: TaskState, id: usize, msg: ReliableMsg, now: Instant)
    requires
        s.wf(),
        s.has(id as int),
        s.tx.seq_avail(),
        !(msg is Data),
    ensures
        s.send_closing(id, msg, now).wf(),
{
    lemma_send_small_wf(s, id, msg, now);
    lemma_frame_wf(s.send_reliable(id, msg, now), s.send_closing(id, msg, now));
}

/// Sending data that fits keeps the invariant.
pub proof fn lemma_send_data_wf(s: TaskState, id: usize, data: Bytes, now: Instant)
    requires
        s.wf(),
        s.has(id as int),
        s.tx.seq_avail(),
        ReliableMsg::Data(data).spec_size() <= s.tx_space(),
    ensures
        s.send_data(id, data, now).wf(),
{
    reveal(TaskState::send_data);
    let t = TaskState { write_rx: Some(PeekableReceiver { peeked: None }), ..s };
    lemma_frame_wf(s, t);
    assert(t.has(id as int));
    lemma_send_reliable_wf(t, id, ReliableMsg::Data(data), now);
}

/// Sending over a working link keeps the invariant.
pub proof fn lemma_send_by_priority_wf(s: TaskState, id: usize, flags: SendFlags, now: Instant)
    requires
        s.wf(),
        s.has(id as int),
        s.allows(flags),
        may_idle(s.link(id as int)),
    ensures
        s.send_by_priority(id, flags, now).wf(),
{
    let link = s.link(id as int);
    if flags.consume_ack_required && flags.tx_seq_avail {
        lemma_send_consumed_wf(s, id, now);
    } else if flags.resending && link.is_sendable() && flags.non_resendable != Some(link.info.link_id) {
        lemma_resend_reliable_wf(s, id, now);
    } else if flags.tx_seq_avail && s.closing_msg() is Some {
        lemma_send_closing_wf(s, id, s.closing_msg()->0, now);
    } else if flags.tx_seq_avail && link.is_sendable() && data_to_send(s.write_rx, flags.tx_space) is Some {
        lemma_send_data_wf(s, id, data_to_send(s.write_rx, flags.tx_space)->0, now);
    } else if link.needs_flush() && !link.is_sendable() {
        lemma_flush_link_wf(s, id, now);
    } else {
        lemma_become_idle_wf(s, id, now);
    }
}

/// A link becoming ready keeps the invariant.
pub proof fn lemma_tx_ready_wf(s: TaskState, id: usize, flags: SendFlags, now: Instant)
    requires
        s.wf(),
        s.has(id as int),
        s.allows(flags),
        s.link(id as int).tx.tx_polling is None,
    ensures
        s.tx_ready(id, flags, now).wf(),
{
    reveal(TaskState::tx_ready);
    let link = s.link(id as int);
    if link.status.needs_tx_accepted {
        lemma_send_control_wf(
            s,
            id,
            LinkMsg::Accepted,
            LinkStatus { needs_tx_accepted: false, ..link.status },
            link.ping,
            now,
        );
    } else if link.ping.send_pong {
        lemma_send_control_wf(
            s,
            id,
            LinkMsg::Pong,
            link.status,
            LinkPinging { send_pong: false, ..link.ping },
            now,
        );
    } else if link.status.disconnecting is Some {
        lemma_send_control_wf(
            s,
            id,
            LinkMsg::Goodbye,
            LinkStatus { goodbye_sent: true, ..link.status },
            link.ping,
            now,
        );
        lemma_remove_wf(s, id, DisconnectReason::RemotelyRequested, now);
    } else if link.ping.send_ping {
        lemma_send_control_wf(
            s,
            id,
            LinkMsg::Ping,
            link.status,
            LinkPinging { current_ping_sent: Some(now), send_ping: false, ..link.ping },
            now,
        );
    } else if link.status.blocked != link.status.blocked_sent {
        lemma_send_control_wf(
            s,
            id,
            LinkMsg::SetBlock { blocked: link.status.blocked },
            LinkStatus { blocked_sent: link.status.blocked, ..link.status },
            link.ping,
            now,
        );
    } else if link.acks.len() > 0 {
        lemma_send_ack_wf(s, id, now);
    } else if link.is_working() {
        lemma_send_by_priority_wf(s, id, flags, now);
    } else {
        lemma_flush_link_wf(s, id, now);
    }
}

impl Task {
    /// Sends a control message over a link, which then has the specified status.
    fn send_control(&mut self, id: usize, msg: LinkMsg, status: LinkStatus, ping: LinkPinging, now: Instant)
        requires
            old(self)@.wf(),
            old(self)@.has(id as int),
            old(self)@.link(id as int).tx.tx_polling is None,
            !(msg is Welcome),
            !(msg is Connect),
            !(msg is TestData),
            status.test == old(self)@.link(id as int).status.test,
            status.unconfirmed == old(self)@.link(id as int).status.unconfirmed,
        ensures
            final(self)@ == old(self)@.send_control(id, msg, status, ping, now),
            final(self)@.wf(),
    {
        let ghost before = self@;
        proof {
            lemma_send_control_wf(before, id, msg, status, ping, now);
            lemma_send_msg_wf(before, id, msg, None, now);
        }
        self.start_send(id, msg, None, now);
        let ghost entries = self.links@;
        if let Some(link) = &mut self.links[id] {
            link.status = status;
            link.ping = ping;
        }
        proof {
            lemma_link_replaced(entries, self.links@, id as int, self.links@[id as int]->0);
        }
        assert(self@ =~= before.send_control(id, msg, status, ping, now));
    }

    /// Takes the oldest queued acknowledgement of a link.
    fn take_ack(&mut self, id: usize) -> (r: SeqNum)
        requires
            old(self)@.has(id as int),
            old(self)@.link(id as int).acks.len() > 0,
        ensures
            r == old(self)@.link(id as int).acks[0],
            final(self)@ == old(self)@.set_link(
                id as int,
                (LinkState { acks: old(self)@.link(id as int).acks.drop_first(), ..old(self)@.link(id as int) }),
            ),
    {
        let ghost before = self@;
        let ghost entries = self.links@;
        let mut acked: SeqNum = SeqNum(0);
        if let Some(link) = &mut self.links[id] {
            if let Some(seq) = link.tx_ack_queue.pop_front() {
                acked = seq;
            }
        }
        proof {
            let link = self.links@[id as int]->0;
            lemma_link_replaced(entries, self.links@, id as int, link);
            assert(link@.acks =~= before.link(id as int).acks.drop_first());
            assert(link@ =~= (LinkState {
                acks: before.link(id as int).acks.drop_first(),
                ..before.link(id as int)
            }));
            assert(self@ =~= before.set_link(id as int, link@));
        }
        acked
    }

    /// Sends the oldest queued acknowledgement over a link.
    fn send_ack(&mut self, id: usize, now: Instant)
        requires
            old(self)@.wf(),
            old(self)@.has(id as int),
            old(self)@.link(id as int).tx.tx_polling is None,
            old(self)@.link(id as int).acks.len() > 0,
        ensures
            final(self)@ == old(self)@.send_ack(id, now),
            final(self)@.wf(),
    {
        let ghost before = self@;
        proof {
            let link = before.link(id as int);
            let popped = LinkState { acks: link.acks.drop_first(), ..link };
            lemma_wf_link(before, id as int);
            assert(before.idle.contains(id) ==> may_idle(popped));
            lemma_set_link_wf(before, id as int, popped);
        }
        let received: SeqNum = self.take_ack(id);
        self.start_send(id, LinkMsg::Ack { received }, None, now);
    }

    /// Sends the size of the consumed data over a link.
    pub fn send_consumed(&mut self, id: usize, now: Instant)
        requires
            old(self)@.wf(),
            old(self)@.has(id as int),
            old(self)@.link(id as int).tx.tx_polling is None,
            old(self)@.tx.seq_avail(),
        ensures
            final(self)@ == old(self)@.send_consumed(id, now),
            final(self)@.wf(),
    {
        let ghost before = self@;
        proof {
            lemma_send_consumed_wf(before, id, now);
        }
        let consumed: u32 = (self.rx.rxed_reliable_consumed_since_last_ack % 0x1_0000_0000) as u32;
        self.send_reliable_over_link(id, ReliableMsg::Consumed(consumed), now);
        self.rx.rxed_reliable_consumed_since_last_ack = 0;
        self.rx.rxed_reliable_consumed_force_ack = false;
        assert(self@ =~= before.send_consumed(id, now)) by {
            reveal(TaskState::send_consumed);
        }
    }

    /// Sends a message that closes a channel over a link.
    #[verifier::rlimit(40)]
    pub fn send_closing(&mut self, id: usize, msg: ReliableMsg, now: Instant)
        requires
            old(self)@.wf(),
            old(self)@.has(id as int),
            old(self)@.link(id as int).tx.tx_polling is None,
            old(self)@.tx.seq_avail(),
            !(msg is Data),
        ensures
            final(self)@ == old(self)@.send_closing(id, msg, now),
            final(self)@.wf(),
    {
        let ghost before = self@;
        proof {
            lemma_send_closing_wf(before, id, msg, now);
        }
        let close: bool = matches!(&msg, ReliableMsg::ReceiveClose);
        let finish: bool = matches!(&msg, ReliableMsg::ReceiveFinish);
        let send_finish: bool = matches!(&msg, ReliableMsg::SendFinish);
        let ghost sent = msg;
        self.send_reliable_over_link(id, msg, now);
        proof {
            lemma_send_keeps_channels(before, id, sent, now);
        }
        self.chan.receive_close_sent = self.chan.receive_close_sent || close;
        self.chan.receive_finish_sent = self.chan.receive_finish_sent || finish;
        self.chan.send_finish_sent = self.chan.send_finish_sent || send_finish;
        assert(self@ =~= before.send_closing(id, sent, now));
    }

    /// Sends user data over a link.
    pub fn send_data(&mut self, id: usize, data: Bytes, now: Instant)
        requires
            old(self)@.wf(),
            old(self)@.has(id as int),
            old(self)@.link(id as int).tx.tx_polling is None,
            old(self)@.tx.seq_avail(),
            ReliableMsg::Data(data).spec_size() <= old(self)@.tx_space(),
        ensures
            final(self)@ == old(self)@.send_data(id, data, now),
            final(self)@.wf(),
    {
        let ghost before = self@;
        self.write_rx = Some(PeekableReceiver { peeked: None });
        proof {
            lemma_frame_wf(before, self@);
            assert(self@.has(id as int));
        }
        reveal(TaskState::send_data);
        self.send_reliable_over_link(id, ReliableMsg::Data(data), now);
    }

    /// Message that must be sent because a channel was closed, if any.
    fn closing_msg(&self) -> (r: Option<ReliableMsg>)
        ensures
            r == self@.closing_msg(),
    {
        if !self.chan.read_closed_open && !self.chan.receive_close_sent {
            Some(ReliableMsg::ReceiveClose)
        } else if !self.chan.read_open && !self.chan.receive_finish_sent {
            Some(ReliableMsg::ReceiveFinish)
        } else if self.write_rx.is_none() && !self.chan.send_finish_sent {
            Some(ReliableMsg::SendFinish)
        } else {
            None
        }
    }

    /// Data waiting to be sent, if it fits into the available space.
    pub fn data_to_send(&self, space: u64) -> (r: Option<Bytes>)
        ensures
            r == data_to_send(self@.write_rx, space),
    {
        match &self.write_rx {
            Some(write_rx) => match &write_rx.peeked {
                Some(SendReq::Send(data)) => if data.len() as u64 <= space {
                    Some(data.clone())
                } else {
                    None
                },
                _ => None,
            },
            None => None,
        }
    }

    /// Whether a link is in the list of idle links.
    fn is_idle(&self, id: usize) -> (r: bool)
        ensures
            r == self@.idle.contains(id),
    {
        let mut i: usize = 0;
        while i < self.idle_links.len()
            invariant
                i <= self.idle_links@.len(),
                forall|k: int| 0 <= k < i ==> self.idle_links@[k] != id,
            decreases self.idle_links@.len() - i,
        {
            if self.idle_links[i] == id {
                return true;
            }
            i += 1;
        }
        false
    }

    /// Stores a link in the list of idle links.
    fn become_idle(&mut self, id: usize, now: Instant)
        requires
            old(self)@.wf(),
            old(self)@.has(id as int),
            may_idle(old(self)@.link(id as int)),
        ensures
            final(self)@ == old(self)@.become_idle(id, now),
            final(self)@.wf(),
    {
        let ghost before = self@;
        proof {
            lemma_become_idle_wf(before, id, now);
        }
        if !self.is_idle(id) {
            let ghost entries = self.links@;
            if let Some(link) = &mut self.links[id] {
                link.mark_idle(now);
            }
            proof {
                lemma_link_replaced(entries, self.links@, id as int, self.links@[id as int]->0);
            }
            self.idle_links.push(id);
        }
        assert(self@ =~= before.become_idle(id, now));
    }

    /// Sends the reliable message with the highest priority over a working link.
    #[verifier::rlimit(40)]
    fn send_by_priority(&mut self, id: usize, flags: &SendFlags, now: Instant)
        requires
            old(self)@.wf(),
            old(self)@.has(id as int),
            old(self)@.allows(*flags),
            may_idle(old(self)@.link(id as int)),
        ensures
            final(self)@ == old(self)@.send_by_priority(id, *flags, now),
            final(self)@.wf(),
    {
        let mut sendable: bool = false;
        let mut needs_flush: bool = false;
        if let Some(link) = &self.links[id] {
            sendable = link.is_sendable();
            needs_flush = link.needs_flush();
        }
        let resend_forbidden: bool = match flags.non_resendable {
            Some(sent_link) => sent_link == self.link_id_of(id),
            None => false,
        };
        if flags.consume_ack_required && flags.tx_seq_avail {
            self.send_consumed(id, now);
        } else if flags.resending && sendable && !resend_forbidden {
            self.resend_reliable_over_link(id, now);
        } else {
            let closing: Option<ReliableMsg> = if flags.tx_seq_avail {
                self.closing_msg()
            } else {
                None
            };
            let data: Option<Bytes> = if flags.tx_seq_avail && sendable {
                self.data_to_send(flags.tx_space)
            } else {
                None
            };
            if let Some(msg) = closing {
                self.send_closing(id, msg, now);
            } else if let Some(data) = data {
                self.send_data(id, data, now);
            } else if needs_flush && !sendable {
                self.flush_link(id, now);
            } else {
                self.become_idle(id, now);
            }
        }
    }

    /// Continues the disconnection of a link that has become ready for sending.
    fn continue_disconnecting(&mut self, id: usize, initiator: DisconnectInitiator, now: Instant)
        requires
            old(self)@.wf(),
            old(self)@.has(id as int),
            old(self)@.link(id as int).tx.tx_polling is None,
            old(self)@.link(id as int).status.disconnecting == Some(initiator),
        ensures
            final(self)@ == (if !old(self)@.link(id as int).status.goodbye_sent {
                old(self)@.send_control(
                    id,
                    LinkMsg::Goodbye,
                    (LinkStatus { goodbye_sent: true, ..old(self)@.link(id as int).status }),
                    old(self)@.link(id as int).ping,
                    now,
                )
            } else if initiator == DisconnectInitiator::Remote {
                old(self)@.remove(id, DisconnectReason::RemotelyRequested, now)
            } else {
                old(self)@
            }),
            final(self)@.wf(),
    {
        if let Some(link) = &self.links[id] {
            let status: LinkStatus = link.status;
            let ping: LinkPinging = link.ping;
            if !status.goodbye_sent {
                self.send_control(id, LinkMsg::Goodbye, LinkStatus { goodbye_sent: true, ..status }, ping, now);
            } else if initiator == DisconnectInitiator::Remote {
                // All outstanding messages and Goodbye have been sent and flushed,
                // thus the link can now be disconnected.
                self.remove_link(id, DisconnectReason::RemotelyRequested, now);
            }
        }
    }

    /// Handles a link having become ready for sending.
    ///
    /// Before calling this a message that the user wants to send should be made available in
    /// `write_rx`, if one can be obtained immediately.
    #[verifier::rlimit(40)]
    pub fn handle_tx_ready(&mut self, id: usize, flags: &SendFlags, now: Instant)
        requires
            old(self)@.wf(),
            old(self)@.has(id as int),
            old(self)@.allows(*flags),
            old(self)@.link(id as int).tx.tx_polling is None,
        ensures
            final(self)@ == old(self)@.tx_ready(id, *flags, now),
            final(self)@.wf(),
    {
        reveal(TaskState::tx_ready);
        if let Some(link) = &self.links[id] {
            let status: LinkStatus = link.status;
            let ping: LinkPinging = link.ping;
            let acks: bool = link.tx_ack_queue.len() > 0;
            let flush: bool = link.needs_flush() || link.need_ack_flush();
            if status.needs_tx_accepted {
                self.send_control(
                    id,
                    LinkMsg::Accepted,
                    LinkStatus { needs_tx_accepted: false, ..status },
                    ping,
                    now,
                );
            } else if ping.send_pong {
                self.send_control(id, LinkMsg::Pong, status, LinkPinging { send_pong: false, ..ping }, now);
            } else if let Some(initiator) = status.disconnecting {
                self.continue_disconnecting(id, initiator, now);
            } else if ping.send_ping {
                self.send_control(
                    id,
                    LinkMsg::Ping,
                    status,
                    LinkPinging { current_ping_sent: Some(now), send_ping: false, ..ping },
                    now,
                );
            } else if status.blocked != status.blocked_sent {
                self.send_control(
                    id,
                    LinkMsg::SetBlock { blocked: status.blocked },
                    LinkStatus { blocked_sent: status.blocked, ..status },
                    ping,
                    now,
                );
            } else if acks {
                self.send_ack(id, now);
            } else if status.unconfirmed.is_none() && !status.blocked && !status.remotely_blocked {
                self.send_by_priority(id, flags, now);
            } else if flush {
                self.flush_link(id, now);
            }
        }
    }
}

} // verus!
