//! What holds of a connection as a whole.

use crate::agg::events::TaskEvent;
use crate::agg::events::{lemma_handle_link_event_wf, lemma_ping_requested_wf};
use crate::agg::link_int::{LinkIntEvent, LinkState, LinkTest};
use crate::agg::ready::{data_to_send, SendFlags};
use crate::agg::ready::{lemma_send_consumed_wf, lemma_send_data_wf};
use crate::agg::round::lemma_last_sendable;
use crate::agg::rx::{consumables, follows_stream, leading, stream_part, Place, ReceivedReliableMsg, RxState};
use crate::agg::rx::{law_in_order_exactly_once, lemma_leading, lemma_place_of_position};
use crate::agg::send::first_empty;
use crate::agg::send::{lemma_add_wf, lemma_first_empty, lemma_remove_wf, lemma_resend_reliable_wf};
use crate::agg::send::lemma_unconfirm_wf;
use crate::agg::state::{lemma_frame_wf, lemma_wf_buffers, lemma_wf_idle};
use crate::agg::state::{TaskChannels, TaskState};
use crate::agg::termination::Termination;
use crate::agg::timeouts::{earliest, LinkTimeout};
use crate::agg::tx::{first_queued, is_on_link, leading_received, packet_size, queued_seqs};
use crate::agg::tx::{SentReliable, SentReliableStatus, TxState};
use crate::agg::tx::{lemma_first_queued, lemma_leading_received, lemma_packet_index, lemma_receive_confirmed_wf};
use crate::agg::user::{lemma_close_over_idle_wf, lemma_start_user_flush_wf};
use crate::control::{DisconnectReason, NotWorkingReason};
use crate::id::LinkId;
use crate::msg::ReliableMsg;
use crate::seq::{lemma_seq_of_plus, lemma_steps_between_positions, seq_of, steps_between, SeqNum};
use crate::time::{duration_between, Instant};
use vstd::prelude::*;

verus! {

/// No more data is unacknowledged than the send buffer holds and no more data is on its way to the
/// user of the remote endpoint than its receive buffer holds.
pub proof fn law_flow_control(s: TaskState)
    requires
        s.wf(),
    ensures
        s.tx.unacked <= s.info.cfg.send_buffer,
        s.remote_recv_buffer() matches Some(size) ==> s.tx.unconsumed <= size,
        s.rx.size <= s.info.cfg.recv_buffer,
{
    lemma_wf_buffers(s);
}

/// The sequence numbers of the packets that are not yet known to be received are all different and
/// ordered as they were sent.
pub proof fn law_sent_in_order(s: TxState, send_buffer: u32, i: int, j: int)
    requires
        s.wf(send_buffer),
        0 <= i < j < s.packets.len(),
    ensures
        s.packets[i].seq != s.packets[j].seq,
        steps_between(s.packets[j].seq, s.packets[i].seq) == j - i,
{
    lemma_packet_index(s.packets, s.tx_seq, i);
    lemma_packet_index(s.packets, s.tx_seq, j);
}

/// The message of a packet that is still to be delivered.
pub open spec fn packet_msg(p: SentReliable) -> Option<ReliableMsg> {
    match p.status {
        SentReliableStatus::Sent { msg, .. } => Some(msg),
        SentReliableStatus::ResendQueued { msg, .. } => Some(msg),
        SentReliableStatus::Received { .. } => None,
    }
}

/// Whether a packet still carries a message, or the size of that message, if it has been received.
pub open spec fn packet_carries(p: SentReliable, msg: ReliableMsg) -> bool {
    match packet_msg(p) {
        Some(carried) => carried == msg,
        None => packet_size(p) == msg.spec_size(),
    }
}

/// Whether the packets of the send buffer carry the last messages of a stream, numbered by their
/// positions.
///
/// All messages before these packets and all messages whose packets are marked as received are at positions
/// in `got`.
pub open spec fn carries(s: TxState, stream: Seq<ReliableMsg>, got: Set<int>) -> bool {
    &&& s.tx_seq == seq_of(stream.len() as int)
    &&& s.packets.len() <= stream.len()
    &&& forall|k: int|
        0 <= k < s.packets.len() ==> packet_carries(
            #[trigger] s.packets[k],
            stream[stream.len() - s.packets.len() + k],
        )
    &&& forall|k: int|
        0 <= k < s.packets.len() && (#[trigger] s.packets[k]).status is Received ==> got.contains(
            stream.len() - s.packets.len() + k,
        )
    &&& forall|p: int| 0 <= p < stream.len() - s.packets.len() ==> #[trigger] got.contains(p)
}

/// Whether the message that an acknowledgement is for is at a position in `got`.
pub open spec fn ack_known(s: TxState, stream: Seq<ReliableMsg>, got: Set<int>, seq: SeqNum) -> bool {
    s.index_of(seq) matches Some(k) ==> got.contains(stream.len() - s.packets.len() + k)
}

/// The sequence number of a packet is the position of its message.
pub proof fn lemma_packet_position(s: TxState, stream: Seq<ReliableMsg>, got: Set<int>, send_buffer: u32, k: int)
    requires
        s.wf(send_buffer),
        carries(s, stream, got),
        0 <= k < s.packets.len(),
    ensures
        s.packets[k].seq == seq_of(stream.len() - s.packets.len() + k),
{
    lemma_seq_of_plus(stream.len() as int, k - s.packets.len());
}

/// Sending a message appends it to the stream, numbered by its position.
pub proof fn law_send_extends_stream(
    s: TxState,
    stream: Seq<ReliableMsg>, got: Set<int>,
    id: usize,
    link: LinkId,
    msg: ReliableMsg,
    now: Instant,
)
    requires
        carries(s, stream, got),
    ensures
        carries(s.send(id, link, msg, now), stream.push(msg), got),
        s.send(id, link, msg, now).packets.last().seq == seq_of(stream.len() as int),
{
    let t = s.send(id, link, msg, now);
    lemma_seq_of_plus(stream.len() as int, 1);
    assert forall|k: int| 0 <= k < t.packets.len() implies packet_carries(
        #[trigger] t.packets[k],
        stream.push(msg)[stream.len() + 1 - t.packets.len() + k],
    ) by {
        if k < s.packets.len() {
            assert(t.packets[k] == s.packets[k]);
        }
    }
}

/// Flushing a link, queueing its packets for resending and resending packets keeps every message of
/// the stream.
pub proof fn law_resending_keeps_stream(
    s: TxState,
    stream: Seq<ReliableMsg>,
    got: Set<int>,
    id: usize,
    link: LinkId,
    now: Instant,
)
    requires
        carries(s, stream, got),
        s.resend_queue == queued_seqs(s.packets),
    ensures
        carries(s.flush(link, now), stream, got),
        carries(s.requeue(id as int), stream, got),
        s.resend_queue.len() > 0 ==> carries(s.resend(id, link, now), stream, got),
{
    let a = s.flush(link, now);
    assert forall|k: int| 0 <= k < a.packets.len() implies packet_carries(
        #[trigger] a.packets[k],
        stream[stream.len() - a.packets.len() + k],
    ) by {
        assert(packet_carries(s.packets[k], stream[stream.len() - s.packets.len() + k]));
    }
    let b = s.requeue(id as int);
    assert forall|k: int| 0 <= k < b.packets.len() implies packet_carries(
        #[trigger] b.packets[k],
        stream[stream.len() - b.packets.len() + k],
    ) by {
        assert(packet_carries(s.packets[k], stream[stream.len() - s.packets.len() + k]));
    }
    if s.resend_queue.len() > 0 {
        let c = s.resend(id, link, now);
        let f = first_queued(s.packets);
        let sent = SentReliable { seq: s.packets[0].seq, status: SentReliableStatus::Received { size: 0 } };
        lemma_first_queued(s.packets, sent);
        assert forall|k: int| 0 <= k < c.packets.len() implies packet_carries(
            #[trigger] c.packets[k],
            stream[stream.len() - c.packets.len() + k],
        ) by {
            assert(packet_carries(s.packets[k], stream[stream.len() - s.packets.len() + k]));
        }
    }
}

/// Acknowledgements never make the send buffer forget a message of the stream that has not been received.
pub proof fn law_ack_keeps_stream(
    s: TxState,
    stream: Seq<ReliableMsg>,
    got: Set<int>,
    send_buffer: u32,
    id: int,
    seq: SeqNum,
)
    requires
        s.wf(send_buffer),
        carries(s, stream, got),
        ack_known(s, stream, got, seq),
    ensures
        carries(s.ack(id, seq), stream, got),
{
    let r = if s.confirms(id, seq) {
        s.receive_confirmed(s.index_of(seq)->0)
    } else {
        s
    };
    assert(carries(r, stream, got)) by {
        assert forall|k: int| 0 <= k < r.packets.len() implies packet_carries(
            #[trigger] r.packets[k],
            stream[stream.len() - r.packets.len() + k],
        ) by {
            assert(packet_carries(s.packets[k], stream[stream.len() - s.packets.len() + k]));
            assert(packet_size(s.packets[k]) <= u32::MAX);
        }
        assert forall|k: int| 0 <= k < r.packets.len() && (
        #[trigger] r.packets[k]).status is Received implies got.contains(stream.len() - r.packets.len() + k) by {
            if !(s.confirms(id, seq) && k == s.index_of(seq)->0) {
                assert(r.packets[k] == s.packets[k]);
            }
        }
    }
    lemma_leading_received(r.packets);
    let t = r.sweep();
    let n = leading_received(r.packets) as int;
    assert forall|k: int| 0 <= k < t.packets.len() implies packet_carries(
        #[trigger] t.packets[k],
        stream[stream.len() - t.packets.len() + k],
    ) by {
        assert(t.packets[k] == r.packets[n + k]);
        assert(packet_carries(r.packets[n + k], stream[stream.len() - r.packets.len() + n + k]));
    }
    assert forall|k: int| 0 <= k < t.packets.len() && (#[trigger] t.packets[k]).status is Received implies got.contains(
        stream.len() - t.packets.len() + k,
    ) by {
        assert(t.packets[k] == r.packets[n + k]);
    }
    assert forall|p: int| 0 <= p < stream.len() - t.packets.len() implies #[trigger] got.contains(p) by {
        let k = p - (stream.len() - r.packets.len());
        if k >= 0 {
            assert(r.packets[k].status is Received);
        }
    }
}

/// A packet that is (re)sent is handed to the user of the remote endpoint in order and exactly once.
///
/// `n` is the position up to which the remote endpoint has received the stream. If the packet is the
/// next one, the remote endpoint advances.
pub proof fn law_delivered_in_order_exactly_once(
    tx: TxState,
    send_buffer: u32,
    rx: RxState,
    recv_buffer: u32,
    stream: Seq<ReliableMsg>,
    got: Set<int>,
    k: int,
    n: int,
)
    requires
        tx.wf(send_buffer),
        carries(tx, stream, got),
        0 <= k < tx.packets.len(),
        packet_msg(tx.packets[k]) is Some,
        rx.wf(recv_buffer),
        follows_stream(rx, stream, n),
        n - SeqNum::USABLE_INTERVAL <= stream.len() - tx.packets.len() + k <= n + SeqNum::USABLE_INTERVAL,
    ensures
        ({
            let t = rx.receive(tx.packets[k].seq, packet_msg(tx.packets[k])->0);
            let m = n + steps_between(t.rx_seq, rx.rx_seq);
            &&& n <= m
            &&& (stream.len() - tx.packets.len() + k == n ==> m > n)
            &&& follows_stream(t, stream, m)
            &&& t.consumable == rx.consumable + consumables(stream_part(stream, n, m))
        }),
{
    let i = stream.len() - tx.packets.len() + k;
    lemma_packet_position(tx, stream, got, send_buffer, k);
    assert(packet_carries(tx.packets[k], stream[i]));
    law_in_order_exactly_once(rx, stream, n, i, recv_buffer);
}

/// The messages for the user in two consecutive parts of a stream are those of both parts.
pub proof fn lemma_consumables_add(a: Seq<ReceivedReliableMsg>, b: Seq<ReceivedReliableMsg>)
    ensures
        consumables(a + b) == consumables(a) + consumables(b),
    decreases a.len(),
{
    if a.len() == 0 {
        assert(a + b =~= b);
        assert(consumables(a) + consumables(b) =~= consumables(b));
    } else {
        lemma_consumables_add(a.drop_first(), b);
        assert((a + b).drop_first() =~= a.drop_first() + b);
        assert((a + b)[0] == a[0]);
        assert(consumables(a + b) =~= consumables(a) + consumables(b));
    }
}

/// Whether what the user has received, followed by what is ready for the user, is what the first `n`
/// messages of a stream hold for the user.
pub open spec fn delivered(history: Seq<ReceivedReliableMsg>, rx: RxState, stream: Seq<ReliableMsg>, n: int) -> bool {
    &&& 0 <= n <= stream.len()
    &&& follows_stream(rx, stream, n)
    &&& history + rx.consumable == consumables(stream_part(stream, 0, n))
}

/// Whatever message of the stream arrives, in whatever order and however often, the user gets the
/// messages of the stream in order, each exactly once.
pub proof fn law_user_gets_stream(
    history: Seq<ReceivedReliableMsg>,
    rx: RxState,
    recv_buffer: u32,
    stream: Seq<ReliableMsg>,
    n: int,
    i: int,
)
    requires
        rx.wf(recv_buffer),
        delivered(history, rx, stream, n),
        0 <= i < stream.len(),
        n - SeqNum::USABLE_INTERVAL <= i <= n + SeqNum::USABLE_INTERVAL,
    ensures
        ({
            let t = rx.receive(seq_of(i), stream[i]);
            delivered(history, t, stream, n + steps_between(t.rx_seq, rx.rx_seq))
        }),
{
    let t = rx.receive(seq_of(i), stream[i]);
    let m = n + steps_between(t.rx_seq, rx.rx_seq);
    law_in_order_exactly_once(rx, stream, n, i, recv_buffer);
    lemma_received_length(rx, stream, n, i, recv_buffer);
    let a = stream_part(stream, 0, n);
    let b = stream_part(stream, n, m);
    lemma_consumables_add(a, b);
    assert(stream_part(stream, 0, m) =~= a + b);
    assert(history + t.consumable =~= (history + rx.consumable) + consumables(b));
}

/// No more messages are received than have been sent.
proof fn lemma_received_length(rx: RxState, stream: Seq<ReliableMsg>, n: int, i: int, recv_buffer: u32)
    requires
        rx.wf(recv_buffer),
        0 <= n <= stream.len(),
        follows_stream(rx, stream, n),
        0 <= i < stream.len(),
        n - SeqNum::USABLE_INTERVAL <= i <= n + SeqNum::USABLE_INTERVAL,
    ensures
        n + steps_between(rx.receive(seq_of(i), stream[i]).rx_seq, rx.rx_seq) <= stream.len(),
{
    lemma_place_of_position(rx, n, i);
    let stored = match rx.place(seq_of(i)) {
        Ok(Place::New(offset)) => rx.store(offset as int, ReceivedReliableMsg { seq: seq_of(i), msg: stream[i] }),
        _ => rx,
    };
    let ready = leading(stored.slots);
    lemma_leading(stored.slots);
    lemma_forward_steps(stored, n);
    if ready.len() > 0 {
        let last = ready.len() - 1;
        assert(stored.slots[last] == Some(ready[last]));
        if last < rx.slots.len() && rx.slots[last] is Some {
            assert(rx.slots[last]->0.msg == stream[n + last]);
        } else {
            assert(last == i - n);
        }
    }
}

/// Receiving advances by the number of messages that are ready.
proof fn lemma_forward_steps(s: RxState, n: int)
    requires
        s.rx_seq == seq_of(n),
        s.slots_wf(),
    ensures
        steps_between(s.forward().rx_seq, s.rx_seq) == leading(s.slots).len(),
{
    lemma_leading(s.slots);
    lemma_seq_of_plus(n, leading(s.slots).len() as int);
    lemma_steps_between_positions(n, n + leading(s.slots).len());
}

/// When the user takes a message, it is the next one of the stream.
pub proof fn law_user_takes_next(
    history: Seq<ReceivedReliableMsg>,
    s: TaskState,
    stream: Seq<ReliableMsg>,
    n: int,
)
    requires
        delivered(history, s.rx, stream, n),
        s.rx.consumable.len() > 0,
    ensures
        delivered(history.push(s.rx.consumable[0]), s.consume().0.rx, stream, n),
        s.consume().1 matches Some(data) ==> s.rx.consumable[0].msg == ReliableMsg::Data(data),
{
    let t = s.consume().0;
    assert(history.push(s.rx.consumable[0]) + t.rx.consumable =~= history + s.rx.consumable);
    assert forall|k: int| 0 <= k < t.rx.slots.len() && t.rx.slots[k] is Some implies n + k < stream.len()
        && (#[trigger] t.rx.slots[k])->0.msg == stream[n + k] by {
        assert(s.rx.slots[k] is Some);
    }
}

/// Handling the same acknowledgement again changes nothing.
pub proof fn law_ack_is_idempotent(s: TxState, send_buffer: u32, id: int, seq: SeqNum)
    requires
        s.wf(send_buffer),
    ensures
        s.ack(id, seq).ack(id, seq) == s.ack(id, seq),
{
    let r = if s.confirms(id, seq) {
        s.receive_confirmed(s.index_of(seq)->0)
    } else {
        s
    };
    if s.confirms(id, seq) {
        let k = s.index_of(seq)->0;
        assert(packet_size(s.packets[k]) <= u32::MAX);
        lemma_receive_confirmed_wf(s, k, send_buffer);
        assert(r.packets[k].status is Received);
    }
    assert(!r.confirms(id, seq));
    let t = r.sweep();
    let n = leading_received(r.packets) as int;
    lemma_leading_received(r.packets);
    lemma_leading_received(t.packets);
    if t.packets.len() > 0 {
        assert(t.packets[0] == r.packets[n]);
    }
    assert(leading_received(t.packets) == 0);
    if let Some(k) = t.index_of(seq) {
        assert(t.packets[k] == r.packets[n + k]);
        assert(r.index_of(seq) == Some(n + k));
    }
    assert(!t.confirms(id, seq));
    assert(t.packets.skip(0) =~= t.packets);
    assert(t.packets.take(0) =~= Seq::empty());
    assert(t.sweep() == t);
}

/// Whether a packet is the same packet with the same message.
pub open spec fn same_packet(p: SentReliable, q: SentReliable) -> bool {
    &&& p.seq == q.seq
    &&& packet_msg(p) == packet_msg(q)
    &&& packet_size(p) == packet_size(q)
}

/// When a link fails, no packet is lost: the packets sent over it whose reception is not confirmed are
/// queued for resending with their sequence numbers and messages and all others stay as they are.
pub proof fn law_link_failure_loses_nothing(s: TaskState, id: usize, reason: DisconnectReason, now: Instant)
    requires
        s.wf(),
        s.has(id as int),
    ensures
        ({
            let t = s.remove(id, reason, now);
            &&& t.tx.tx_seq == s.tx.tx_seq
            &&& t.tx.packets.len() == s.tx.packets.len()
            &&& forall|k: int|
                #![trigger t.tx.packets[k]]
                0 <= k < s.tx.packets.len() ==> {
                    &&& same_packet(s.tx.packets[k], t.tx.packets[k])
                    &&& (is_on_link(s.tx.packets[k], id as int) ==> t.tx.packets[k].status is ResendQueued)
                    &&& !is_on_link(t.tx.packets[k], id as int)
                }
            &&& t.tx.resend_queue == queued_seqs(t.tx.packets)
            &&& !t.has(id as int)
        }),
{
    lemma_remove_wf(s, id, reason, now);
}

/// While a link is unconfirmed or blocked, nothing that must be delivered reliably is sent over it.
pub proof fn law_reliable_only_over_working_links(s: TaskState, id: usize, flags: SendFlags, now: Instant)
    requires
        s.wf(),
        s.has(id as int),
        !s.link(id as int).is_working(),
    ensures
        ({
            let t = s.tx_ready(id, flags, now);
            &&& t.tx.tx_seq == s.tx.tx_seq
            &&& t.tx.packets.len() == s.tx.packets.len()
            &&& forall|k: int|
                #![trigger t.tx.packets[k]]
                0 <= k < s.tx.packets.len() && is_on_link(t.tx.packets[k], id as int) ==> is_on_link(
                    s.tx.packets[k],
                    id as int,
                )
        }),
{
    reveal(TaskState::tx_ready);
    reveal(TaskState::send_msg);
}

/// The links over which messages are sent when they are idle are working.
pub proof fn law_idle_links_are_working(s: TaskState, id: usize)
    requires
        s.wf(),
        s.idle.contains(id),
    ensures
        s.has(id as int),
        s.link(id as int).is_working(),
{
    lemma_wf_idle(s, id);
}

/// A packet is not resent over the link over which it was lost.
pub proof fn law_resent_over_another_link(s: TaskState, was_resending: bool)
    requires
        s.wf(),
        s.tx.resend_queue.len() > 0,
    ensures
        s.send_flags(was_resending).resendable matches Some(id) ==> ({
            let p = s.tx.packets[first_queued(s.tx.packets)];
            p.status matches SentReliableStatus::ResendQueued { sent_link, .. } && s.link(
                id as int,
            ).info.link_id != sent_link
        }),
{
    lemma_wf_buffers(s);
    lemma_last_sendable(s, s.idle, s.tx.non_resendable());
    let other = SentReliable { seq: s.tx.packets[0].seq, status: SentReliableStatus::Received { size: 0 } };
    lemma_first_queued(s.tx.packets, other);
}

/// A link can be added and removed again without affecting the other links.
pub proof fn law_add_then_remove(s: TaskState, link: LinkState, reason: DisconnectReason, now: Instant)
    requires
        s.wf(),
        s.info.remote_cfg is Some,
        s.links.len() < usize::MAX,
        link.wf(),
        link.status.test == LinkTest::Inactive,
        link.unacked.txed_unacked_data == 0,
    ensures
        ({
            let id = first_empty(s.links) as usize;
            let added = s.add(link, now);
            &&& !s.has(id as int)
            &&& added.has(id as int)
            &&& forall|i: int| #![trigger s.has(i)] s.has(i) ==> added.has(i) && added.link(i) == s.link(i)
            &&& forall|i: int|
                #![trigger added.remove(id, reason, now).has(i)]
                added.remove(id, reason, now).has(i) == s.has(i)
        }),
{
    let id = first_empty(s.links) as usize;
    lemma_first_empty(s.links);
    lemma_add_wf(s, link, now);
    let added = s.add(link, now);
    lemma_remove_wf(added, id, reason, now);
    assert forall|i: int| #![trigger s.has(i)] s.has(i) implies added.has(i) && added.link(i) == s.link(i) by {
        assert(i != id);
    }
}

/// A connection whose sender and receiver were dropped ends when everything has been exchanged. It ends
/// before that only if no link is available or if this takes too long.
pub proof fn law_graceful_end_loses_nothing(s: TaskState, now: Instant)
    requires
        s.ending(now) == Some(Termination::Closed),
        s.links_available(),
        duration_between(s.closed_since(now), now).nanos < s.info.cfg.termination_timeout.nanos,
    ensures
        s.tx.packets.len() == 0,
        s.tx.unconsumed == 0,
        s.rx.size == 0,
        s.rx.consumed == 0,
        s.chan.send_finish_sent,
        s.chan.receive_finish_sent,
{
}

/// When the last link that is being flushed by user request has been flushed, the user is notified.
pub proof fn law_flush_completes(s: TaskState, id: usize, flags: SendFlags, now: Instant)
    requires
        s.times.flush_pending,
        forall|other: usize| #![trigger s.unflushed.contains(other)] s.unflushed.contains(other) ==> other == id,
    ensures
        s.handle_link_event(id, LinkIntEvent::TxFlushed, flags, now).0.flushed_notice(),
{
    reveal(TaskState::handle_link_event);
    let t = s.handle_link_event(id, LinkIntEvent::TxFlushed, flags, now).0;
    assert(t.unflushed =~= Set::empty());
}

/// The failure of a link does not keep a flush request from completing.
pub proof fn law_failed_link_does_not_block_flush(s: TaskState, id: usize, reason: DisconnectReason, now: Instant)
    requires
        s.wf(),
        s.has(id as int),
    ensures
        s.remove(id, reason, now).unflushed == s.unflushed.remove(id),
        s.remove(id, reason, now).times.flush_pending == s.times.flush_pending,
{
}

/// The earliest timeout is that of a link and no link has an earlier one.
pub proof fn law_earliest_timeout(links: Seq<Option<LinkState>>, timeout: LinkTimeout, now: Instant)
    requires
        links.len() <= usize::MAX,
    ensures
        match earliest(links, timeout, now) {
            Some((id, time)) => {
                &&& id < links.len()
                &&& links[id as int] is Some
                &&& links[id as int]->0.timeout(timeout, now) == Some(time)
                &&& forall|i: int|
                    #![trigger links[i]]
                    0 <= i < links.len() && links[i] is Some && links[i]->0.timeout(timeout, now) is Some ==> time
                        <= links[i]->0.timeout(timeout, now)->0
            },
            None => forall|i: int|
                #![trigger links[i]]
                0 <= i < links.len() && links[i] is Some ==> links[i]->0.timeout(timeout, now) is None,
        },
    decreases links.len(),
{
    if links.len() > 0 {
        let front = links.drop_last();
        law_earliest_timeout(front, timeout, now);
        assert forall|i: int| #![trigger links[i]] 0 <= i < links.len() - 1 implies front[i] == links[i] by {}
        match earliest(links, timeout, now) {
            Some((id, time)) => {
                assert forall|i: int|
                    #![trigger links[i]]
                    0 <= i < links.len() && links[i] is Some && links[i]->0.timeout(timeout, now) is Some implies time
                    <= links[i]->0.timeout(timeout, now)->0 by {
                    if i < front.len() {
                        assert(front[i] == links[i]);
                    }
                }
            },
            None => {
                assert forall|i: int|
                    #![trigger links[i]]
                    0 <= i < links.len() && links[i] is Some implies links[i]->0.timeout(timeout, now) is None by {
                    if i < front.len() {
                        assert(front[i] == links[i]);
                    }
                }
            },
        }
    }
}

/// Every event keeps the invariant of the connection.
pub proof fn law_events_keep_invariant(s: TaskState, event: TaskEvent, flags: SendFlags, now: Instant)
    requires
        s.wf(),
        s.links.len() <= usize::MAX,
        s.allows(flags),
        s.admits(event, flags),
    ensures
        s.handle_event(event, flags, now).0.wf(),
{
    match event {
        TaskEvent::NoNewLinks => lemma_frame_wf(s, s.handle_event(event, flags, now).0),
        TaskEvent::LinkEvent { id, event } => lemma_handle_link_event_wf(s, id, event, flags, now),
        TaskEvent::WriteRx => {
            lemma_wf_idle(s, flags.sendable->0);
            lemma_send_data_wf(s, flags.sendable->0, data_to_send(s.write_rx, flags.tx_space)->0, now);
        },
        TaskEvent::SendConsumed => {
            assert(s.idle.contains(s.idle.last()));
            lemma_wf_idle(s, s.idle.last());
            lemma_send_consumed_wf(s, s.idle.last(), now);
        },
        TaskEvent::WriteEnd => {
            reveal(TaskState::write_ended);
            let t = TaskState { write_rx: None, ..s };
            lemma_frame_wf(s, t);
            lemma_close_over_idle_wf(t, ReliableMsg::SendFinish, flags.tx_seq_avail, now);
        },
        TaskEvent::Flush => lemma_start_user_flush_wf(s, now),
        TaskEvent::ConfirmTimedOut(id) => lemma_unconfirm_wf(s, id, NotWorkingReason::AckTimeout, now),
        TaskEvent::Resend => {
            lemma_wf_idle(s, flags.resendable->0);
            lemma_resend_reliable_wf(s, flags.resendable->0, now);
        },
        TaskEvent::ReadDropped => {
            reveal(TaskState::read_dropped);
            let t = TaskState {
                chan: TaskChannels { read_open: false, read_closed_open: false, ..s.chan },
                ..s
            };
            lemma_frame_wf(s, t);
            lemma_close_over_idle_wf(t, ReliableMsg::ReceiveFinish, flags.tx_seq_avail, now);
        },
        TaskEvent::ReadClosed => {
            reveal(TaskState::read_closed);
            let t = TaskState { chan: TaskChannels { read_closed_open: false, ..s.chan }, ..s };
            lemma_frame_wf(s, t);
            lemma_close_over_idle_wf(t, ReliableMsg::ReceiveClose, flags.tx_seq_avail, now);
        },
        TaskEvent::PingLink(id) => lemma_ping_requested_wf(s, id, now),
        TaskEvent::LinkUnconfirmedTimeout(id) => lemma_remove_wf(s, id, DisconnectReason::UnconfirmedTimeout, now),
        TaskEvent::LinkSendTimeout(id) => lemma_remove_wf(s, id, DisconnectReason::SendTimeout, now),
        TaskEvent::LinkPingTimeout(id) => lemma_remove_wf(s, id, DisconnectReason::PingTimeout, now),
        _ => {},
    }
}

} // verus!
