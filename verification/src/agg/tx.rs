//! Buffer of sent reliable messages.
//!
//! A message is kept until it and all messages sent before it have been received by the remote endpoint,
//! so that it can be sent again over another link if it is lost.

use crate::agg::rx::deque_set;
use crate::id::LinkId;
use crate::msg::ReliableMsg;
use crate::seq::{seq_of, signed_steps, steps_between, SeqNum};
use crate::time::Instant;
use std::collections::VecDeque;
use vstd::prelude::*;

verus! {

/// A sent reliable packet.
#[derive(Debug)]
pub struct SentReliable {
    /// Sequence number.
    pub seq: SeqNum,
    /// Status.
    pub status: SentReliableStatus,
}

/// Status of a sent reliable packet.
#[derive(Debug)]
pub enum SentReliableStatus {
    /// Message was sent, but its reception is not yet confirmed.
    Sent {
        /// Time packet was sent.
        sent: Instant,
        /// Time packet was flushed.
        flushed: Option<Instant>,
        /// Index of link used to send the packet.
        link_id: usize,
        /// Id of link used to send the packet.
        link: LinkId,
        /// Sent message.
        msg: ReliableMsg,
        /// Whether packet has been resent.
        resent: bool,
    },
    /// Message was received by remote endpoint.
    Received {
        /// Size of data.
        size: usize,
    },
    /// Message has been queued for resending.
    ResendQueued {
        /// Message for resending.
        msg: ReliableMsg,
        /// Id of original link used to send the packet.
        sent_link: LinkId,
    },
}

/// Buffer of sent reliable messages.
#[derive(Debug)]
pub struct SendBuffer {
    /// Next data sequence number for sending.
    pub tx_seq: SeqNum,
    /// Packets that have been sent but not yet become consumable by the remote endpoint.
    pub txed_packets: VecDeque<SentReliable>,
    /// Size of data sent and not yet acknowledged by remote endpoint.
    pub txed_unacked: u64,
    /// Size of data that has been sent and not yet consumed by the remote endpoint.
    pub txed_unconsumed: u64,
    /// Size of data received by remote endpoint that cannot yet be consumed.
    pub txed_unconsumable: u64,
    /// Sequence number of last packet consumed by the remote endpoint.
    pub txed_last_consumed: SeqNum,
    /// Queue of packets that have been declared lost and must be send again.
    pub resend_queue: VecDeque<SeqNum>,
}

/// Mathematical model of the buffer of sent reliable messages.
#[verifier::ext_equal]
pub struct TxState {
    /// Next data sequence number for sending.
    pub tx_seq: SeqNum,
    /// Packets that have been sent but not yet become consumable by the remote endpoint.
    pub packets: Seq<SentReliable>,
    /// Size of data sent and not yet acknowledged by remote endpoint.
    pub unacked: u64,
    /// Size of data that has been sent and not yet consumed by the remote endpoint.
    pub unconsumed: u64,
    /// Size of data received by remote endpoint that cannot yet be consumed.
    pub unconsumable: u64,
    /// Sequence number of last packet consumed by the remote endpoint.
    pub last_consumed: SeqNum,
    /// Queue of packets that have been declared lost and must be send again.
    pub resend_queue: Seq<SeqNum>,
}

impl View for SendBuffer {
    type V = TxState;

    open spec fn view(&self) -> TxState {
        TxState {
            tx_seq: self.tx_seq,
            packets: self.txed_packets@,
            unacked: self.txed_unacked,
            unconsumed: self.txed_unconsumed,
            unconsumable: self.txed_unconsumable,
            last_consumed: self.txed_last_consumed,
            resend_queue: self.resend_queue@,
        }
    }
}

/// A group of packets whose data is summed up.
pub enum Tally {
    /// Packets that have not been acknowledged.
    Unacked,
    /// Packets that have been acknowledged.
    Unconsumable,
    /// Packets whose reception over the link with this index is not yet confirmed.
    OnLink(int),
}

/// Size of data of a packet.
pub open spec fn packet_size(p: SentReliable) -> nat {
    match p.status {
        SentReliableStatus::Sent { msg, .. } => msg.spec_size(),
        SentReliableStatus::ResendQueued { msg, .. } => msg.spec_size(),
        SentReliableStatus::Received { size } => size as nat,
    }
}

/// Whether a packet belongs to a group.
pub open spec fn in_tally(tally: Tally, p: SentReliable) -> bool {
    match tally {
        Tally::Unacked => !(p.status is Received),
        Tally::Unconsumable => p.status is Received,
        Tally::OnLink(id) => is_on_link(p, id),
    }
}

/// Whether the reception of a packet over the link with the specified index is not yet confirmed.
pub open spec fn is_on_link(p: SentReliable, id: int) -> bool {
    p.status matches SentReliableStatus::Sent { link_id, .. } && link_id == id
}

/// Size of data of the packets in a group.
pub open spec fn total(tally: Tally, packets: Seq<SentReliable>) -> nat
    decreases packets.len(),
{
    if packets.len() == 0 {
        0
    } else {
        weight(tally, packets[0]) + total(tally, packets.drop_first())
    }
}

/// Size of data that a packet contributes to a group.
pub open spec fn weight(tally: Tally, p: SentReliable) -> nat {
    if in_tally(tally, p) {
        packet_size(p)
    } else {
        0
    }
}

/// Sequence numbers of the packets queued for resending, in order.
pub open spec fn queued_seqs(packets: Seq<SentReliable>) -> Seq<SeqNum>
    decreases packets.len(),
{
    if packets.len() == 0 {
        Seq::empty()
    } else {
        (if packets[0].status is ResendQueued {
            seq![packets[0].seq]
        } else {
            Seq::empty()
        }) + queued_seqs(packets.drop_first())
    }
}

/// Index of the first packet that is queued for resending.
pub open spec fn first_queued(packets: Seq<SentReliable>) -> int
    decreases packets.len(),
{
    if packets.len() == 0 || packets[0].status is ResendQueued {
        0
    } else {
        1 + first_queued(packets.drop_first())
    }
}

/// Number of received packets that come before the first packet that has not been received.
pub open spec fn leading_received(packets: Seq<SentReliable>) -> nat
    decreases packets.len(),
{
    if packets.len() > 0 && packets[0].status is Received {
        1 + leading_received(packets.drop_first())
    } else {
        0
    }
}

/// Index of the first packet whose reception is not yet confirmed and that is not queued for resending.
pub open spec fn first_sent(packets: Seq<SentReliable>) -> int
    decreases packets.len(),
{
    if packets.len() == 0 || packets[0].status is Sent {
        0
    } else {
        1 + first_sent(packets.drop_first())
    }
}

/// Packet after everything sent over the specified link has been flushed.
pub open spec fn flushed_packet(p: SentReliable, on: LinkId, now: Instant) -> SentReliable {
    match p.status {
        SentReliableStatus::Sent { sent, flushed: None, link_id, link, msg, resent } if link == on => SentReliable {
            status: SentReliableStatus::Sent { sent, flushed: Some(now), link_id, link, msg, resent },
            ..p
        },
        _ => p,
    }
}

/// Packet after declaring everything sent over the link with the specified index as lost.
pub open spec fn requeued_packet(p: SentReliable, id: int) -> SentReliable {
    match p.status {
        SentReliableStatus::Sent { link_id, link, msg, .. } if link_id == id => SentReliable {
            status: SentReliableStatus::ResendQueued { msg, sent_link: link },
            ..p
        },
        _ => p,
    }
}

/// Whether the packets have successive sequence numbers that end before `tx_seq`.
pub open spec fn contiguous(packets: Seq<SentReliable>, tx_seq: SeqNum) -> bool {
    forall|k: int|
        0 <= k < packets.len() ==> (#[trigger] packets[k]).seq == tx_seq.plus(k - packets.len())
}

impl TxState {
    /// The empty buffer.
    pub open spec fn empty() -> TxState {
        TxState {
            tx_seq: seq_of(0),
            packets: Seq::empty(),
            unacked: 0,
            unconsumed: 0,
            unconsumable: 0,
            last_consumed: seq_of(-1),
            resend_queue: Seq::empty(),
        }
    }

    /// Invariant of the buffer.
    ///
    /// Packets have successive sequence numbers within the usable interval, the sizes are those of the
    /// packets, and exactly the packets that are declared lost are queued for resending, in order.
    pub open spec fn wf(self, send_buffer: u32) -> bool {
        &&& contiguous(self.packets, self.tx_seq)
        &&& self.packets.len() <= SeqNum::USABLE_INTERVAL + 1
        &&& self.sizes_wf()
        &&& self.unacked == total(Tally::Unacked, self.packets)
        &&& self.unacked <= send_buffer
        &&& self.unconsumable == total(Tally::Unconsumable, self.packets)
        &&& self.resend_queue == queued_seqs(self.packets)
    }

    /// No packet is bigger than the largest buffer.
    pub open spec fn sizes_wf(self) -> bool {
        forall|k: int| 0 <= k < self.packets.len() ==> packet_size(#[trigger] self.packets[k]) <= u32::MAX
    }

    /// Whether a sequence number is available for sending.
    pub open spec fn seq_avail(self) -> bool {
        self.packets.len() == 0 || signed_steps(self.tx_seq, self.packets[0].seq) <= SeqNum::USABLE_INTERVAL
    }

    /// Space available in buffers necessary for sending data.
    pub open spec fn space(self, send_buffer: u32, remote_recv_buffer: Option<u32>) -> u64 {
        let local = if send_buffer > self.unacked {
            (send_buffer - self.unacked) as u64
        } else {
            0
        };
        let remote = match remote_recv_buffer {
            Some(size) if size > self.unconsumed => (size - self.unconsumed) as u64,
            _ => 0,
        };
        if local < remote {
            local
        } else {
            remote
        }
    }

    /// Buffer after sending a new message over a link.
    pub open spec fn send(self, id: usize, link: LinkId, msg: ReliableMsg, now: Instant) -> TxState {
        TxState {
            tx_seq: self.tx_seq.plus(1),
            packets: self.packets.push(
                SentReliable {
                    seq: self.tx_seq,
                    status: SentReliableStatus::Sent {
                        sent: now,
                        flushed: None,
                        link_id: id,
                        link,
                        msg,
                        resent: false,
                    },
                },
            ),
            unacked: (self.unacked + msg.spec_size()) as u64,
            unconsumed: (self.unconsumed + msg.spec_size()) as u64,
            ..self
        }
    }

    /// Buffer after everything sent over the specified link has been flushed.
    pub open spec fn flush(self, on: LinkId, now: Instant) -> TxState {
        TxState { packets: self.packets.map_values(|p: SentReliable| flushed_packet(p, on, now)), ..self }
    }

    /// Buffer after declaring everything sent over the link with the specified index as lost.
    pub open spec fn requeue(self, id: int) -> TxState {
        let packets = self.packets.map_values(|p: SentReliable| requeued_packet(p, id));
        TxState { packets, resend_queue: queued_seqs(packets), ..self }
    }

    /// Buffer after resending the first packet in the resend queue over a link.
    pub open spec fn resend(self, id: usize, link: LinkId, now: Instant) -> TxState {
        let k = first_queued(self.packets);
        match self.packets[k].status {
            SentReliableStatus::ResendQueued { msg, .. } => TxState {
                packets: self.packets.update(
                    k,
                    SentReliable {
                        seq: self.packets[k].seq,
                        status: SentReliableStatus::Sent {
                            sent: now,
                            flushed: None,
                            link_id: id,
                            link,
                            msg,
                            resent: true,
                        },
                    },
                ),
                resend_queue: self.resend_queue.drop_first(),
                ..self
            },
            _ => self,
        }
    }

    /// Index of the packet with the specified sequence number, if there is one.
    pub open spec fn index_of(self, seq: SeqNum) -> Option<int> {
        let back = signed_steps(self.tx_seq, seq);
        if 0 < back <= self.packets.len() {
            Some(self.packets.len() - back)
        } else {
            None
        }
    }

    /// Whether an acknowledgement received over the link with the specified index confirms the reception
    /// of the packet with the specified sequence number.
    ///
    /// The packet must have been sent over that link or be queued for resending.
    pub open spec fn confirms(self, id: int, seq: SeqNum) -> bool {
        self.index_of(seq) matches Some(k) && (is_on_link(self.packets[k], id)
            || self.packets[k].status is ResendQueued)
    }

    /// Buffer after the reception of a packet has been confirmed.
    pub open spec fn receive_confirmed(self, k: int) -> TxState {
        let size = packet_size(self.packets[k]);
        let packets = self.packets.update(
            k,
            SentReliable {
                seq: self.packets[k].seq,
                status: SentReliableStatus::Received { size: size as usize },
            },
        );
        TxState {
            packets,
            unacked: (self.unacked - size) as u64,
            unconsumable: (self.unconsumable + size) as u64,
            resend_queue: queued_seqs(packets),
            ..self
        }
    }

    /// Buffer after removing all packets at its front that have been received.
    pub open spec fn sweep(self) -> TxState {
        let n = leading_received(self.packets) as int;
        TxState {
            packets: self.packets.skip(n),
            unconsumable: (self.unconsumable - total(Tally::Unconsumable, self.packets.take(n))) as u64,
            last_consumed: if n > 0 {
                self.packets[n - 1].seq
            } else {
                self.last_consumed
            },
            ..self
        }
    }

    /// Buffer after handling an acknowledgement received over the link with the specified index.
    pub open spec fn ack(self, id: int, seq: SeqNum) -> TxState {
        if self.confirms(id, seq) {
            self.receive_confirmed(self.index_of(seq)->0).sweep()
        } else {
            self.sweep()
        }
    }
}

/// Appending a packet adds its size.
pub proof fn lemma_total_push(tally: Tally, packets: Seq<SentReliable>, p: SentReliable)
    ensures
        total(tally, packets.push(p)) == total(tally, packets) + weight(tally, p),
    decreases packets.len(),
{
    if packets.len() == 0 {
        reveal_with_fuel(total, 2);
        assert(packets.push(p).drop_first() =~= Seq::empty());
    } else {
        assert(packets.push(p).drop_first() =~= packets.drop_first().push(p));
        lemma_total_push(tally, packets.drop_first(), p);
    }
}

/// Replacing a packet exchanges its size.
pub proof fn lemma_total_update(tally: Tally, packets: Seq<SentReliable>, k: int, p: SentReliable)
    requires
        0 <= k < packets.len(),
    ensures
        total(tally, packets.update(k, p)) == total(tally, packets) - weight(tally, packets[k]) + weight(tally, p),
        total(tally, packets) >= weight(tally, packets[k]),
    decreases packets.len(),
{
    if k == 0 {
        assert(packets.update(k, p).drop_first() =~= packets.drop_first());
    } else {
        assert(packets.update(k, p).drop_first() =~= packets.drop_first().update(k - 1, p));
        lemma_total_update(tally, packets.drop_first(), k - 1, p);
    }
}

/// The size of all packets is that of a front part and of the rest.
pub proof fn lemma_total_split(tally: Tally, packets: Seq<SentReliable>, n: int)
    requires
        0 <= n <= packets.len(),
    ensures
        total(tally, packets) == total(tally, packets.take(n)) + total(tally, packets.skip(n)),
    decreases n,
{
    if n == 0 {
        assert(packets.take(0) =~= Seq::empty());
        assert(packets.skip(0) =~= packets);
    } else {
        let rest = packets.drop_first();
        lemma_total_split(tally, rest, n - 1);
        assert(packets.take(n).drop_first() =~= rest.take(n - 1));
        assert(packets.skip(n) =~= rest.skip(n - 1));
    }
}

/// The size of packets is limited by their number.
pub proof fn lemma_total_bound(tally: Tally, packets: Seq<SentReliable>)
    requires
        forall|k: int| 0 <= k < packets.len() ==> packet_size(#[trigger] packets[k]) <= u32::MAX,
    ensures
        total(tally, packets) <= packets.len() * 0x1_0000_0000,
    decreases packets.len(),
{
    if packets.len() > 0 {
        let rest = packets.drop_first();
        assert forall|k: int| 0 <= k < rest.len() implies packet_size(#[trigger] rest[k]) <= u32::MAX by {
            assert(rest[k] == packets[k + 1]);
        }
        lemma_total_bound(tally, rest);
    }
}

/// Changing packets without changing what they contribute leaves the total unchanged.
pub proof fn lemma_total_same(tally: Tally, a: Seq<SentReliable>, b: Seq<SentReliable>)
    requires
        a.len() == b.len(),
        forall|k: int| 0 <= k < a.len() ==> weight(tally, #[trigger] a[k]) == weight(tally, b[k]),
    ensures
        total(tally, a) == total(tally, b),
    decreases a.len(),
{
    if a.len() > 0 {
        let ra = a.drop_first();
        let rb = b.drop_first();
        assert forall|k: int| 0 <= k < ra.len() implies weight(tally, #[trigger] ra[k]) == weight(tally, rb[k]) by {
            assert(ra[k] == a[k + 1]);
        }
        lemma_total_same(tally, ra, rb);
    }
}

/// If no packet belongs to a group, its total is zero.
pub proof fn lemma_total_none(tally: Tally, packets: Seq<SentReliable>)
    requires
        forall|k: int| 0 <= k < packets.len() ==> !in_tally(tally, #[trigger] packets[k]),
    ensures
        total(tally, packets) == 0,
    decreases packets.len(),
{
    if packets.len() > 0 {
        let rest = packets.drop_first();
        assert forall|k: int| 0 <= k < rest.len() implies !in_tally(tally, #[trigger] rest[k]) by {
            assert(rest[k] == packets[k + 1]);
        }
        lemma_total_none(tally, rest);
    }
}

/// Appending a packet that is not queued for resending.
proof fn lemma_queued_push(packets: Seq<SentReliable>, p: SentReliable)
    requires
        !(p.status is ResendQueued),
    ensures
        queued_seqs(packets.push(p)) == queued_seqs(packets),
    decreases packets.len(),
{
    if packets.len() == 0 {
        reveal_with_fuel(queued_seqs, 2);
        assert(packets.push(p).drop_first() =~= Seq::empty());
        assert(queued_seqs(packets.push(p)) =~= Seq::empty());
    } else {
        assert(packets.push(p).drop_first() =~= packets.drop_first().push(p));
        lemma_queued_push(packets.drop_first(), p);
    }
}

/// Changing packets without changing which ones are queued leaves the queue unchanged.
proof fn lemma_queued_same(a: Seq<SentReliable>, b: Seq<SentReliable>)
    requires
        a.len() == b.len(),
        forall|k: int|
            0 <= k < a.len() ==> (#[trigger] a[k]).seq == b[k].seq && (a[k].status is ResendQueued
                <==> b[k].status is ResendQueued),
    ensures
        queued_seqs(a) == queued_seqs(b),
    decreases a.len(),
{
    if a.len() > 0 {
        let ra = a.drop_first();
        let rb = b.drop_first();
        assert forall|k: int| 0 <= k < ra.len() implies (#[trigger] ra[k]).seq == rb[k].seq && (
        ra[k].status is ResendQueued <==> rb[k].status is ResendQueued) by {
            assert(ra[k] == a[k + 1]);
        }
        lemma_queued_same(ra, rb);
    }
}

/// The queue of all packets is that of a front part followed by that of the rest.
proof fn lemma_queued_split(packets: Seq<SentReliable>, n: int)
    requires
        0 <= n <= packets.len(),
    ensures
        queued_seqs(packets) == queued_seqs(packets.take(n)) + queued_seqs(packets.skip(n)),
    decreases n,
{
    if n == 0 {
        assert(packets.take(0) =~= Seq::empty());
        assert(packets.skip(0) =~= packets);
        assert(queued_seqs(packets) =~= queued_seqs(packets.take(0)) + queued_seqs(packets.skip(0)));
    } else {
        let rest = packets.drop_first();
        lemma_queued_split(rest, n - 1);
        assert(packets.take(n).drop_first() =~= rest.take(n - 1));
        assert(packets.skip(n) =~= rest.skip(n - 1));
        assert(queued_seqs(packets) =~= queued_seqs(packets.take(n)) + queued_seqs(packets.skip(n)));
    }
}

/// Without queued packets the queue is empty.
proof fn lemma_queued_none(packets: Seq<SentReliable>)
    requires
        forall|k: int| 0 <= k < packets.len() ==> !((#[trigger] packets[k]).status is ResendQueued),
    ensures
        queued_seqs(packets) == Seq::<SeqNum>::empty(),
    decreases packets.len(),
{
    if packets.len() > 0 {
        let rest = packets.drop_first();
        assert forall|k: int| 0 <= k < rest.len() implies !((#[trigger] rest[k]).status is ResendQueued) by {
            assert(rest[k] == packets[k + 1]);
        }
        lemma_queued_none(rest);
        assert(queued_seqs(packets) =~= Seq::<SeqNum>::empty());
    }
}

/// The first number in the queue is that of the first queued packet. When that packet is not queued
/// anymore, the rest of the queue remains.
pub proof fn lemma_first_queued(packets: Seq<SentReliable>, p: SentReliable)
    requires
        queued_seqs(packets).len() > 0,
        !(p.status is ResendQueued),
    ensures
        ({
            let k = first_queued(packets);
            &&& 0 <= k < packets.len()
            &&& packets[k].status is ResendQueued
            &&& queued_seqs(packets)[0] == packets[k].seq
            &&& queued_seqs(packets.update(k, p)) == queued_seqs(packets).drop_first()
        }),
    decreases packets.len(),
{
    let rest = packets.drop_first();
    let k = first_queued(packets);
    if packets[0].status is ResendQueued {
        assert(packets.update(0, p).drop_first() =~= rest);
        assert(queued_seqs(packets.update(0, p)) =~= queued_seqs(packets).drop_first());
    } else {
        assert(queued_seqs(packets) =~= queued_seqs(rest));
        lemma_first_queued(rest, p);
        assert(packets.update(k, p).drop_first() =~= rest.update(k - 1, p));
        assert(queued_seqs(packets.update(k, p)) =~= queued_seqs(rest.update(k - 1, p)));
    }
}

/// The leading received packets are received and are followed by a packet that is not.
pub proof fn lemma_leading_received(packets: Seq<SentReliable>)
    ensures
        leading_received(packets) <= packets.len(),
        forall|k: int| 0 <= k < leading_received(packets) ==> (#[trigger] packets[k]).status is Received,
        leading_received(packets) < packets.len() ==> !(packets[leading_received(packets) as int].status is Received),
    decreases packets.len(),
{
    if packets.len() > 0 && packets[0].status is Received {
        let rest = packets.drop_first();
        lemma_leading_received(rest);
        assert forall|k: int| 0 <= k < leading_received(packets) implies (
        #[trigger] packets[k]).status is Received by {
            if k > 0 {
                assert(rest[k - 1] == packets[k]);
            }
        }
    }
}

/// The number of steps to a packet tells its index.
pub proof fn lemma_packet_index(packets: Seq<SentReliable>, tx_seq: SeqNum, k: int)
    requires
        contiguous(packets, tx_seq),
        packets.len() <= SeqNum::USABLE_INTERVAL + 1,
        0 <= k < packets.len(),
    ensures
        steps_between(tx_seq, packets[k].seq) == packets.len() - k,
        signed_steps(tx_seq, packets[k].seq) == packets.len() - k,
{
}

/// Whether a sequence number is available depends on the number of packets alone.
pub proof fn lemma_seq_avail(s: TxState)
    requires
        contiguous(s.packets, s.tx_seq),
        s.packets.len() <= SeqNum::USABLE_INTERVAL + 1,
    ensures
        s.seq_avail() == (s.packets.len() <= SeqNum::USABLE_INTERVAL),
{
    if s.packets.len() > 0 {
        lemma_packet_index(s.packets, s.tx_seq, 0);
    }
}

/// Sending a new message keeps the invariant, if a sequence number and enough space are available.
pub proof fn lemma_send_wf(
    s: TxState,
    id: usize,
    link: LinkId,
    msg: ReliableMsg,
    now: Instant,
    send_buffer: u32,
    remote_recv_buffer: Option<u32>,
)
    requires
        s.wf(send_buffer),
        s.seq_avail(),
        msg.spec_size() <= s.space(send_buffer, remote_recv_buffer),
    ensures
        s.send(id, link, msg, now).wf(send_buffer),
        s.send(id, link, msg, now).unacked == s.unacked + msg.spec_size(),
        s.send(id, link, msg, now).unconsumed == s.unconsumed + msg.spec_size(),
        remote_recv_buffer matches Some(size) ==> msg.spec_size() == 0 || s.unconsumed + msg.spec_size() <= size,
        remote_recv_buffer is None ==> msg.spec_size() == 0,
        forall|other: int|
            #![trigger total(Tally::OnLink(other), s.send(id, link, msg, now).packets)]
            total(Tally::OnLink(other), s.send(id, link, msg, now).packets) == total(
                Tally::OnLink(other),
                s.packets,
            ) + (if other == id {
                msg.spec_size()
            } else {
                0
            }),
{
    let t = s.send(id, link, msg, now);
    let p = t.packets.last();
    lemma_seq_avail(s);
    lemma_total_push(Tally::Unacked, s.packets, p);
    lemma_total_push(Tally::Unconsumable, s.packets, p);
    lemma_queued_push(s.packets, p);
    assert forall|k: int| 0 <= k < t.packets.len() implies (#[trigger] t.packets[k]).seq == t.tx_seq.plus(
        k - t.packets.len(),
    ) by {
        if k < s.packets.len() {
            assert(t.packets[k] == s.packets[k]);
        }
    }
    assert forall|k: int| 0 <= k < t.packets.len() implies packet_size(#[trigger] t.packets[k]) <= u32::MAX by {
        if k < s.packets.len() {
            assert(t.packets[k] == s.packets[k]);
        }
    }
    assert forall|other: int| #[trigger] total(Tally::OnLink(other), t.packets) == total(
        Tally::OnLink(other),
        s.packets,
    ) + (if other == id {
        msg.spec_size()
    } else {
        0
    }) by {
        lemma_total_push(Tally::OnLink(other), s.packets, p);
    }
}

/// Flushing changes nothing but the time when packets were flushed.
pub proof fn lemma_flush_wf(s: TxState, on: LinkId, now: Instant, send_buffer: u32)
    requires
        s.wf(send_buffer),
    ensures
        s.flush(on, now).wf(send_buffer),
        forall|other: int|
            #![trigger total(Tally::OnLink(other), s.flush(on, now).packets)]
            total(Tally::OnLink(other), s.flush(on, now).packets) == total(Tally::OnLink(other), s.packets),
{
    let t = s.flush(on, now);
    lemma_total_same(Tally::Unacked, s.packets, t.packets);
    lemma_total_same(Tally::Unconsumable, s.packets, t.packets);
    lemma_queued_same(s.packets, t.packets);
    assert forall|k: int| 0 <= k < t.packets.len() implies (#[trigger] t.packets[k]).seq == t.tx_seq.plus(
        k - t.packets.len(),
    ) && packet_size(t.packets[k]) <= u32::MAX by {
        assert(t.packets[k] == flushed_packet(s.packets[k], on, now));
        assert(packet_size(s.packets[k]) <= u32::MAX);
    }
    assert forall|other: int| #[trigger] total(Tally::OnLink(other), t.packets) == total(
        Tally::OnLink(other),
        s.packets,
    ) by {
        lemma_total_same(Tally::OnLink(other), s.packets, t.packets);
    }
}

/// Declaring packets as lost loses none of them: they are all queued for resending.
pub proof fn lemma_requeue_wf(s: TxState, id: int, send_buffer: u32)
    requires
        s.wf(send_buffer),
    ensures
        s.requeue(id).wf(send_buffer),
        total(Tally::OnLink(id), s.requeue(id).packets) == 0,
        forall|other: int|
            #![trigger total(Tally::OnLink(other), s.requeue(id).packets)]
            other != id ==> total(Tally::OnLink(other), s.requeue(id).packets) == total(
                Tally::OnLink(other),
                s.packets,
            ),
{
    let t = s.requeue(id);
    lemma_total_same(Tally::Unacked, s.packets, t.packets);
    lemma_total_same(Tally::Unconsumable, s.packets, t.packets);
    assert forall|k: int| 0 <= k < t.packets.len() implies (#[trigger] t.packets[k]).seq == t.tx_seq.plus(
        k - t.packets.len(),
    ) && packet_size(t.packets[k]) <= u32::MAX by {
        assert(t.packets[k] == requeued_packet(s.packets[k], id));
        assert(packet_size(s.packets[k]) <= u32::MAX);
    }
    assert forall|k: int| 0 <= k < t.packets.len() implies !in_tally(
        Tally::OnLink(id),
        #[trigger] t.packets[k],
    ) by {
        assert(t.packets[k] == requeued_packet(s.packets[k], id));
    }
    lemma_total_none(Tally::OnLink(id), t.packets);
    assert forall|other: int| other != id implies #[trigger] total(Tally::OnLink(other), t.packets) == total(
        Tally::OnLink(other),
        s.packets,
    ) by {
        lemma_total_same(Tally::OnLink(other), s.packets, t.packets);
    }
}

/// Resending takes the first packet from the queue and puts it on the link.
pub proof fn lemma_resend_wf(s: TxState, id: usize, link: LinkId, now: Instant, send_buffer: u32)
    requires
        s.wf(send_buffer),
        s.resend_queue.len() > 0,
    ensures
        s.resend(id, link, now).wf(send_buffer),
        ({
            let k = first_queued(s.packets);
            &&& 0 <= k < s.packets.len()
            &&& s.packets[k].status is ResendQueued
            &&& s.resend_queue[0] == s.packets[k].seq
            &&& forall|other: int|
                #![trigger total(Tally::OnLink(other), s.resend(id, link, now).packets)]
                total(Tally::OnLink(other), s.resend(id, link, now).packets) == total(
                    Tally::OnLink(other),
                    s.packets,
                ) + (if other == id {
                    packet_size(s.packets[k])
                } else {
                    0
                })
        }),
{
    let k = first_queued(s.packets);
    let t = s.resend(id, link, now);
    lemma_first_queued(
        s.packets,
        SentReliable { seq: s.tx_seq, status: SentReliableStatus::Received { size: 0 } },
    );
    let p = t.packets[k];
    lemma_first_queued(s.packets, p);
    assert(t.packets =~= s.packets.update(k, p));
    assert(packet_size(s.packets[k]) <= u32::MAX);
    lemma_total_update(Tally::Unacked, s.packets, k, p);
    lemma_total_update(Tally::Unconsumable, s.packets, k, p);
    assert forall|j: int| 0 <= j < t.packets.len() implies (#[trigger] t.packets[j]).seq == t.tx_seq.plus(
        j - t.packets.len(),
    ) && packet_size(t.packets[j]) <= u32::MAX by {
        assert(packet_size(s.packets[j]) <= u32::MAX);
    }
    assert forall|other: int| #[trigger] total(Tally::OnLink(other), t.packets) == total(
        Tally::OnLink(other),
        s.packets,
    ) + (if other == id {
        packet_size(s.packets[k])
    } else {
        0
    }) by {
        lemma_total_update(Tally::OnLink(other), s.packets, k, p);
    }
}

/// Confirming the reception of a packet accounts for its size.
pub proof fn lemma_receive_confirmed_wf(s: TxState, k: int, send_buffer: u32)
    requires
        s.wf(send_buffer),
        0 <= k < s.packets.len(),
        !(s.packets[k].status is Received),
        packet_size(s.packets[k]) <= usize::MAX,
    ensures
        s.receive_confirmed(k).wf(send_buffer),
        packet_size(s.packets[k]) <= s.unacked,
        s.unconsumable + packet_size(s.packets[k]) <= u64::MAX,
        forall|other: int|
            #![trigger total(Tally::OnLink(other), s.receive_confirmed(k).packets)]
            total(Tally::OnLink(other), s.receive_confirmed(k).packets) == total(
                Tally::OnLink(other),
                s.packets,
            ) - weight(Tally::OnLink(other), s.packets[k]),
{
    let t = s.receive_confirmed(k);
    let p = t.packets[k];
    lemma_total_update(Tally::Unacked, s.packets, k, p);
    lemma_total_update(Tally::Unconsumable, s.packets, k, p);
    assert(packet_size(s.packets[k]) <= u32::MAX);
    lemma_total_bound(Tally::Unconsumable, s.packets);
    assert forall|j: int| 0 <= j < t.packets.len() implies (#[trigger] t.packets[j]).seq == t.tx_seq.plus(
        j - t.packets.len(),
    ) && packet_size(t.packets[j]) <= u32::MAX by {
        assert(packet_size(s.packets[j]) <= u32::MAX);
    }
    assert forall|other: int| #[trigger] total(Tally::OnLink(other), t.packets) == total(
        Tally::OnLink(other),
        s.packets,
    ) - weight(Tally::OnLink(other), s.packets[k]) by {
        lemma_total_update(Tally::OnLink(other), s.packets, k, p);
    }
}

/// Removing received packets from the front keeps the invariant.
pub proof fn lemma_sweep_wf(s: TxState, send_buffer: u32)
    requires
        s.wf(send_buffer),
    ensures
        s.sweep().wf(send_buffer),
        total(Tally::Unconsumable, s.packets.take(leading_received(s.packets) as int)) <= s.unconsumable,
        forall|other: int|
            #![trigger total(Tally::OnLink(other), s.sweep().packets)]
            total(Tally::OnLink(other), s.sweep().packets) == total(Tally::OnLink(other), s.packets),
{
    let n = leading_received(s.packets) as int;
    let t = s.sweep();
    let front = s.packets.take(n);
    lemma_leading_received(s.packets);
    lemma_total_split(Tally::Unacked, s.packets, n);
    lemma_total_split(Tally::Unconsumable, s.packets, n);
    lemma_queued_split(s.packets, n);
    lemma_total_none(Tally::Unacked, front);
    lemma_queued_none(front);
    assert(t.resend_queue =~= queued_seqs(t.packets));
    assert forall|k: int| 0 <= k < t.packets.len() implies (#[trigger] t.packets[k]).seq == t.tx_seq.plus(
        k - t.packets.len(),
    ) && packet_size(t.packets[k]) <= u32::MAX by {
        assert(t.packets[k] == s.packets[k + n]);
        assert(packet_size(s.packets[k + n]) <= u32::MAX);
    }
    assert forall|other: int| #[trigger] total(Tally::OnLink(other), t.packets) == total(
        Tally::OnLink(other),
        s.packets,
    ) by {
        lemma_total_split(Tally::OnLink(other), s.packets, n);
        lemma_total_none(Tally::OnLink(other), front);
    }
}

/// What an acknowledgement tells about a sent packet.
#[derive(Debug, Clone, Copy, PartialEq, Eq)]
pub struct Confirmation {
    /// Size of data of the packet.
    pub size: usize,
    /// Time when the packet was sent over the link that received the acknowledgement.
    ///
    /// `None` if the packet was queued for resending.
    pub sent: Option<Instant>,
}

/// A packet whose reception is not yet confirmed.
#[derive(Debug, Clone, Copy, PartialEq, Eq)]
pub struct Unconfirmed {
    /// Index of link used to send the packet.
    pub link_id: usize,
    /// Time packet was sent.
    pub sent: Instant,
    /// Time packet was flushed.
    pub flushed: Option<Instant>,
    /// Whether packet has been resent.
    pub resent: bool,
}

impl TxState {
    /// What an acknowledgement received over the link with the specified index tells.
    pub open spec fn confirmation(self, id: int, seq: SeqNum) -> Option<Confirmation> {
        if self.confirms(id, seq) {
            let p = self.packets[self.index_of(seq)->0];
            Some(
                Confirmation {
                    size: packet_size(p) as usize,
                    sent: match p.status {
                        SentReliableStatus::Sent { sent, .. } => Some(sent),
                        _ => None,
                    },
                },
            )
        } else {
            None
        }
    }

    /// The oldest packet whose reception is not yet confirmed and that is not queued for resending.
    pub open spec fn oldest_unconfirmed(self) -> Option<Unconfirmed> {
        let k = first_sent(self.packets);
        if k < self.packets.len() {
            match self.packets[k].status {
                SentReliableStatus::Sent { sent, flushed, link_id, resent, .. } => Some(
                    Unconfirmed { link_id, sent, flushed, resent },
                ),
                _ => None,
            }
        } else {
            None
        }
    }

    /// Link over which the first packet in the resend queue must not be resent.
    pub open spec fn non_resendable(self) -> Option<LinkId> {
        if self.resend_queue.len() > 0 {
            match self.packets[first_queued(self.packets)].status {
                SentReliableStatus::ResendQueued { sent_link, .. } => Some(sent_link),
                _ => None,
            }
        } else {
            None
        }
    }
}

/// The first packet found by searching from the front.
pub proof fn lemma_first_sent(packets: Seq<SentReliable>)
    ensures
        0 <= first_sent(packets) <= packets.len(),
        first_sent(packets) < packets.len() ==> packets[first_sent(packets)].status is Sent,
        forall|k: int| 0 <= k < first_sent(packets) ==> !((#[trigger] packets[k]).status is Sent),
    decreases packets.len(),
{
    if packets.len() > 0 && !(packets[0].status is Sent) {
        let rest = packets.drop_first();
        lemma_first_sent(rest);
        assert forall|k: int| 0 <= k < first_sent(packets) implies !((#[trigger] packets[k]).status is Sent) by {
            if k > 0 {
                assert(rest[k - 1] == packets[k]);
            }
        }
    }
}

/// The first packet with a property is determined by the property.
proof fn lemma_first_sent_is(packets: Seq<SentReliable>, n: int)
    requires
        0 <= n <= packets.len(),
        n < packets.len() ==> packets[n].status is Sent,
        forall|k: int| 0 <= k < n ==> !((#[trigger] packets[k]).status is Sent),
    ensures
        first_sent(packets) == n,
{
    lemma_first_sent(packets);
    let f = first_sent(packets);
    if f < n {
        assert(!(packets[f].status is Sent));
    }
    if n < f {
        assert(!(packets[n].status is Sent));
    }
}

/// Removing the received packets from the front one after the other.
proof fn lemma_sweep_one(s: TxState)
    requires
        s.packets.len() > 0,
        s.packets[0].status is Received,
        total(Tally::Unconsumable, s.packets.take(leading_received(s.packets) as int)) <= s.unconsumable,
    ensures
        packet_size(s.packets[0]) <= s.unconsumable,
        ({
            let t = TxState {
                packets: s.packets.drop_first(),
                unconsumable: (s.unconsumable - packet_size(s.packets[0])) as u64,
                last_consumed: s.packets[0].seq,
                ..s
            };
            &&& t.sweep() == s.sweep()
            &&& total(Tally::Unconsumable, t.packets.take(leading_received(t.packets) as int)) <= t.unconsumable
        }),
{
    let rest = s.packets.drop_first();
    let t = TxState {
        packets: rest,
        unconsumable: (s.unconsumable - packet_size(s.packets[0])) as u64,
        last_consumed: s.packets[0].seq,
        ..s
    };
    let n = leading_received(s.packets) as int;
    lemma_leading_received(rest);
    assert(s.packets.take(n).drop_first() =~= rest.take(n - 1));
    assert(s.packets.skip(n) =~= rest.skip(n - 1));
    assert(t.sweep() =~= s.sweep());
}

impl SendBuffer {
    /// Creates an empty buffer.
    pub fn new() -> (r: Self)
        ensures
            r@ == TxState::empty(),
    {
        SendBuffer {
            tx_seq: SeqNum::zero(),
            txed_packets: VecDeque::new(),
            txed_unacked: 0,
            txed_unconsumed: 0,
            txed_unconsumable: 0,
            txed_last_consumed: SeqNum::minus_one(),
            resend_queue: VecDeque::new(),
        }
    }

    /// Returns whether a sequence number is available for sending.
    pub fn tx_seq_avail(&self) -> (r: bool)
        ensures
            r == self@.seq_avail(),
    {
        if self.txed_packets.len() == 0 {
            true
        } else {
            self.tx_seq - self.txed_packets[0].seq <= SeqNum::USABLE_INTERVAL
        }
    }

    /// Space available in buffers necessary for sending data.
    pub fn tx_space(&self, send_buffer: u32, remote_recv_buffer: Option<u32>) -> (r: u64)
        ensures
            r == self@.space(send_buffer, remote_recv_buffer),
    {
        let local: u64 = (send_buffer as u64).saturating_sub(self.txed_unacked);
        let remote: u64 = match remote_recv_buffer {
            Some(size) => (size as u64).saturating_sub(self.txed_unconsumed),
            None => 0,
        };
        if local < remote {
            local
        } else {
            remote
        }
    }

    /// Next reliable transmission sequence number.
    fn next_tx_seq(&mut self) -> (r: SeqNum)
        ensures
            r == old(self)@.tx_seq,
            final(self)@ == (TxState { tx_seq: old(self)@.tx_seq.plus(1), ..old(self)@ }),
    {
        let seq: SeqNum = self.tx_seq;
        self.tx_seq = self.tx_seq + 1u32;
        seq
    }

    /// Stores a message sent over the specified link until its reception is confirmed.
    ///
    /// Returns its sequence number.
    pub fn push_sent(&mut self, id: usize, link: LinkId, msg: ReliableMsg, now: Instant) -> (r: SeqNum)
        requires
            old(self)@.unacked + msg.spec_size() <= u64::MAX,
            old(self)@.unconsumed + msg.spec_size() <= u64::MAX,
        ensures
            final(self)@ == old(self)@.send(id, link, msg, now),
            r == old(self)@.tx_seq,
    {
        let seq: SeqNum = self.next_tx_seq();
        let size: u64 = msg.size() as u64;
        self.txed_unacked = self.txed_unacked + size;
        self.txed_unconsumed = self.txed_unconsumed + size;
        self.txed_packets.push_back(
            SentReliable {
                seq,
                status: SentReliableStatus::Sent { sent: now, flushed: None, link_id: id, link, msg, resent: false },
            },
        );
        seq
    }

    /// Marks reliably transmitted packets on the specified link as flushed.
    pub fn mark_txed_packets_flushed(&mut self, on: LinkId, now: Instant)
        ensures
            final(self)@ == old(self)@.flush(on, now),
    {
        let ghost before = self@.packets;
        let mut i: usize = 0;
        while i < self.txed_packets.len()
            invariant
                before == old(self)@.packets,
                i <= before.len(),
                self@ == (TxState { packets: self@.packets, ..old(self)@ }),
                self@.packets.len() == before.len(),
                forall|k: int| 0 <= k < i ==> self@.packets[k] == flushed_packet(before[k], on, now),
                forall|k: int| i <= k < before.len() ==> self@.packets[k] == before[k],
            decreases before.len() - i,
        {
            let seq: SeqNum = self.txed_packets[i].seq;
            let flushed: Option<SentReliableStatus> = match &self.txed_packets[i].status {
                SentReliableStatus::Sent { sent, flushed, link_id, link, msg, resent } => {
                    if flushed.is_none() && *link == on {
                        Some(
                            SentReliableStatus::Sent {
                                sent: *sent,
                                flushed: Some(now),
                                link_id: *link_id,
                                link: *link,
                                msg: msg.duplicate(),
                                resent: *resent,
                            },
                        )
                    } else {
                        None
                    }
                },
                _ => None,
            };
            if let Some(status) = flushed {
                deque_set(&mut self.txed_packets, i, SentReliable { seq, status });
            }
            i += 1;
        }
        assert(self@ =~= old(self)@.flush(on, now));
    }

    /// Puts all packets that have been declared lost into the resend queue, oldest packets first.
    fn collect_resend_queue(&mut self)
        ensures
            final(self)@ == (TxState { resend_queue: queued_seqs(old(self)@.packets), ..old(self)@ }),
    {
        let mut queue: VecDeque<SeqNum> = VecDeque::new();
        let ghost packets = self@.packets;
        let mut i: usize = 0;
        assert(packets.skip(0) =~= packets);
        assert(queue@ + queued_seqs(packets) =~= queued_seqs(packets));
        while i < self.txed_packets.len()
            invariant
                packets == self@.packets,
                i <= packets.len(),
                queue@ + queued_seqs(packets.skip(i as int)) == queued_seqs(packets),
            decreases packets.len() - i,
        {
            assert(packets.skip(i as int).drop_first() =~= packets.skip(i + 1));
            let ghost q = queue@;
            if matches!(&self.txed_packets[i].status, SentReliableStatus::ResendQueued { .. }) {
                queue.push_back(self.txed_packets[i].seq);
            }
            assert(queue@ + queued_seqs(packets.skip(i + 1)) =~= q + queued_seqs(packets.skip(i as int)));
            i += 1;
        }
        assert(queue@ =~= queue@ + queued_seqs(packets.skip(i as int)));
        self.resend_queue = queue;
    }

    /// Declares everything sent over the link with the specified index as lost and queues it for resending.
    pub fn requeue_link(&mut self, id: usize)
        ensures
            final(self)@ == old(self)@.requeue(id as int),
    {
        let ghost before = self@.packets;
        let mut i: usize = 0;
        while i < self.txed_packets.len()
            invariant
                before == old(self)@.packets,
                i <= before.len(),
                self@ == (TxState { packets: self@.packets, ..old(self)@ }),
                self@.packets.len() == before.len(),
                forall|k: int| 0 <= k < i ==> self@.packets[k] == requeued_packet(before[k], id as int),
                forall|k: int| i <= k < before.len() ==> self@.packets[k] == before[k],
            decreases before.len() - i,
        {
            let seq: SeqNum = self.txed_packets[i].seq;
            let requeued: Option<SentReliableStatus> = match &self.txed_packets[i].status {
                SentReliableStatus::Sent { link_id, link, msg, .. } => {
                    if *link_id == id {
                        Some(SentReliableStatus::ResendQueued { msg: msg.duplicate(), sent_link: *link })
                    } else {
                        None
                    }
                },
                _ => None,
            };
            if let Some(status) = requeued {
                deque_set(&mut self.txed_packets, i, SentReliable { seq, status });
            }
            i += 1;
        }
        assert(self@.packets =~= before.map_values(|p: SentReliable| requeued_packet(p, id as int)));
        self.collect_resend_queue();
    }

    /// Index of the first packet in the resend queue.
    fn resend_index(&self) -> (r: usize)
        requires
            contiguous(self@.packets, self@.tx_seq),
            self@.packets.len() <= SeqNum::USABLE_INTERVAL + 1,
            self@.resend_queue == queued_seqs(self@.packets),
            self@.resend_queue.len() > 0,
        ensures
            r == first_queued(self@.packets),
            r < self@.packets.len(),
            self@.packets[r as int].status is ResendQueued,
            self@.packets[r as int].seq == self@.resend_queue[0],
    {
        proof {
            lemma_first_queued(
                self@.packets,
                SentReliable { seq: self@.tx_seq, status: SentReliableStatus::Received { size: 0 } },
            );
            lemma_packet_index(self@.packets, self@.tx_seq, first_queued(self@.packets));
        }
        let back: u32 = self.tx_seq.steps_from(self.resend_queue[0]);
        self.txed_packets.len() - back as usize
    }

    /// The first packet in the resend queue: its sequence number, its message and
    /// the link over which it must not be resent.
    pub fn next_resend(&self) -> (r: Option<(SeqNum, ReliableMsg, LinkId)>)
        requires
            contiguous(self@.packets, self@.tx_seq),
            self@.packets.len() <= SeqNum::USABLE_INTERVAL + 1,
            self@.resend_queue == queued_seqs(self@.packets),
        ensures
            r is None <==> self@.resend_queue.len() == 0,
            r matches Some((seq, msg, sent_link)) ==> {
                let p = self@.packets[first_queued(self@.packets)];
                &&& seq == p.seq
                &&& p.status == SentReliableStatus::ResendQueued { msg, sent_link }
                &&& self@.non_resendable() == Some(sent_link)
            },
    {
        if self.resend_queue.len() == 0 {
            return None;
        }
        let i: usize = self.resend_index();
        let seq: SeqNum = self.txed_packets[i].seq;
        match &self.txed_packets[i].status {
            SentReliableStatus::ResendQueued { msg, sent_link } => Some((seq, msg.duplicate(), *sent_link)),
            _ => None,
        }
    }

    /// Takes the first packet from the resend queue and stores that it was sent over the specified link.
    pub fn resend_front(&mut self, id: usize, link: LinkId, now: Instant)
        requires
            contiguous(old(self)@.packets, old(self)@.tx_seq),
            old(self)@.packets.len() <= SeqNum::USABLE_INTERVAL + 1,
            old(self)@.resend_queue == queued_seqs(old(self)@.packets),
            old(self)@.resend_queue.len() > 0,
        ensures
            final(self)@ == old(self)@.resend(id, link, now),
    {
        let i: usize = self.resend_index();
        let seq: SeqNum = self.txed_packets[i].seq;
        let resent: Option<SentReliableStatus> = match &self.txed_packets[i].status {
            SentReliableStatus::ResendQueued { msg, .. } => Some(
                SentReliableStatus::Sent {
                    sent: now,
                    flushed: None,
                    link_id: id,
                    link,
                    msg: msg.duplicate(),
                    resent: true,
                },
            ),
            _ => None,
        };
        if let Some(status) = resent {
            deque_set(&mut self.txed_packets, i, SentReliable { seq, status });
        }
        let _ = self.resend_queue.pop_front();
        assert(self@ =~= old(self)@.resend(id, link, now));
    }

    /// Determines what an acknowledgement received over the link with the specified index tells
    /// and stores that the packet has been received.
    fn confirm_received(&mut self, id: usize, seq: SeqNum) -> (r: Option<Confirmation>)
        requires
            exists|send_buffer: u32| old(self)@.wf(send_buffer),
        ensures
            r == old(self)@.confirmation(id as int, seq),
            final(self)@ == if old(self)@.confirms(id as int, seq) {
                old(self)@.receive_confirmed(old(self)@.index_of(seq)->0)
            } else {
                old(self)@
            },
    {
        let back: i32 = self.tx_seq - seq;
        if back <= 0 || back as usize > self.txed_packets.len() {
            return None;
        }
        let i: usize = self.txed_packets.len() - back as usize;
        let confirmation: Option<Confirmation> = match &self.txed_packets[i].status {
            SentReliableStatus::Sent { sent, link_id, msg, .. } => {
                if *link_id == id {
                    Some(Confirmation { size: msg.size(), sent: Some(*sent) })
                } else {
                    None
                }
            },
            SentReliableStatus::ResendQueued { msg, .. } => Some(Confirmation { size: msg.size(), sent: None }),
            SentReliableStatus::Received { .. } => None,
        };
        if let Some(c) = confirmation {
            proof {
                let send_buffer = choose|send_buffer: u32| old(self)@.wf(send_buffer);
                lemma_receive_confirmed_wf(old(self)@, i as int, send_buffer);
            }
            let packet_seq: SeqNum = self.txed_packets[i].seq;
            self.txed_unacked = self.txed_unacked - c.size as u64;
            self.txed_unconsumable = self.txed_unconsumable + c.size as u64;
            deque_set(
                &mut self.txed_packets,
                i,
                SentReliable { seq: packet_seq, status: SentReliableStatus::Received { size: c.size } },
            );
            if c.sent.is_none() {
                self.collect_resend_queue();
            } else {
                proof {
                    lemma_queued_same(old(self)@.packets, self@.packets);
                }
            }
            assert(self@ =~= old(self)@.receive_confirmed(i as int));
        }
        confirmation
    }

    /// Swipes front of unconfirmed queue.
    fn sweep_received(&mut self)
        requires
            total(
                Tally::Unconsumable,
                old(self)@.packets.take(leading_received(old(self)@.packets) as int),
            ) <= old(self)@.unconsumable,
        ensures
            final(self)@ == old(self)@.sweep(),
    {
        while self.txed_packets.len() > 0 && matches!(
            &self.txed_packets[0].status,
            SentReliableStatus::Received { .. }
        )
            invariant
                self@.sweep() == old(self)@.sweep(),
                total(
                    Tally::Unconsumable,
                    self@.packets.take(leading_received(self@.packets) as int),
                ) <= self@.unconsumable,
            decreases self@.packets.len(),
        {
            proof {
                lemma_sweep_one(self@);
            }
            let ghost before = self@;
            if let Some(packet) = self.txed_packets.pop_front() {
                self.txed_last_consumed = packet.seq;
                if let SentReliableStatus::Received { size } = packet.status {
                    self.txed_unconsumable = self.txed_unconsumable - size as u64;
                }
            }
            assert(self@.packets =~= before.packets.drop_first());
        }
        assert(self@.sweep() =~= self@) by {
            assert(self@.packets.skip(0) =~= self@.packets);
            assert(self@.packets.take(0) =~= Seq::empty());
        }
    }

    /// Handles an acknowledgement received over the link with the specified index.
    ///
    /// Returns what it tells about the sent packet.
    pub fn handle_ack(&mut self, id: usize, seq: SeqNum) -> (r: Option<Confirmation>)
        requires
            exists|send_buffer: u32| old(self)@.wf(send_buffer),
        ensures
            r == old(self)@.confirmation(id as int, seq),
            final(self)@ == old(self)@.ack(id as int, seq),
    {
        let ghost send_buffer = choose|send_buffer: u32| old(self)@.wf(send_buffer);
        let confirmation: Option<Confirmation> = self.confirm_received(id, seq);
        proof {
            if old(self)@.confirms(id as int, seq) {
                lemma_receive_confirmed_wf(old(self)@, old(self)@.index_of(seq)->0, send_buffer);
            }
            lemma_sweep_wf(self@, send_buffer);
        }
        self.sweep_received();
        confirmation
    }

    /// The oldest packet whose reception is not yet confirmed and that is not queued for resending.
    pub fn oldest_unconfirmed(&self) -> (r: Option<Unconfirmed>)
        ensures
            r == self@.oldest_unconfirmed(),
    {
        let mut i: usize = 0;
        while i < self.txed_packets.len()
            invariant
                i <= self@.packets.len(),
                forall|k: int| 0 <= k < i ==> !((#[trigger] self@.packets[k]).status is Sent),
            decreases self@.packets.len() - i,
        {
            if let SentReliableStatus::Sent { sent, flushed, link_id, resent, .. } = &self.txed_packets[i].status {
                proof {
                    lemma_first_sent_is(self@.packets, i as int);
                }
                return Some(Unconfirmed { link_id: *link_id, sent: *sent, flushed: *flushed, resent: *resent });
            }
            i += 1;
        }
        proof {
            lemma_first_sent_is(self@.packets, i as int);
        }
        None
    }

    /// Records that the remote endpoint has consumed data.
    ///
    /// Returns whether that much data has been sent.
    pub fn record_consumed(&mut self, consumed: u32) -> (r: bool)
        ensures
            r == (consumed <= old(self)@.unconsumed),
            final(self)@ == if consumed <= old(self)@.unconsumed {
                TxState { unconsumed: (old(self)@.unconsumed - consumed) as u64, ..old(self)@ }
            } else {
                old(self)@
            },
    {
        match self.txed_unconsumed.checked_sub(consumed as u64) {
            Some(txed_unconsumed) => {
                self.txed_unconsumed = txed_unconsumed;
                true
            },
            None => false,
        }
    }
}

} // verus!
