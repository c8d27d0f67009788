//! What a connection hands to its links.

use crate::agg::delivery::{lemma_receive_carried, received_reliable};
use crate::agg::events::{failure_reason, TaskEvent};
use crate::agg::laws::{ack_known, carries, lemma_packet_position, packet_msg};
use crate::agg::limits::{lemma_ids_where, lemma_oldest_unconfirmed, lemma_slow_ids, lemma_unconfirm_all_wf};
use crate::agg::limits::working_count;
use crate::agg::link_int::{DisconnectInitiator, LinkIntEvent, LinkPinging, LinkState, LinkStatus};
use crate::agg::ready::{consumed_size, data_to_send, SendFlags};
use crate::agg::send::lemma_trimmed;
use crate::agg::state::{lemma_frame_wf, lemma_wf_buffers, lemma_wf_idle, TaskChannels, TaskState};
use crate::agg::stream::{acknowledged, extends, law_events_keep_stream};
use crate::agg::tx::{first_queued, lemma_first_queued, SentReliable, SentReliableStatus};
use crate::agg::user::confirmed_ids;
use crate::control::{DisconnectReason, NotWorkingReason};
use crate::msg::{law_reliable_roundtrip, LinkMsg, ReliableMsg};
use crate::peekable_mpsc::PeekableReceiver;
use crate::seq::{seq_of, SeqNum};
use crate::time::Instant;
use bytes::Bytes;
use vstd::prelude::*;

verus! {

/// Whether a message and its data may be handed to a link.
///
/// A reliable message must be the message of the stream at the position that its sequence number tells and
/// an acknowledgement must be for a message that has been heard of.
pub open spec fn may_send(msg: LinkMsg, data: Option<Bytes>, stream: Seq<ReliableMsg>, heard: Set<SeqNum>) -> bool {
    &&& match ReliableMsg::of_link_msg(msg, data) {
        Some((reliable, seq)) => exists|p: int|
            0 <= p < stream.len() && seq == seq_of(p) && reliable == #[trigger] stream[p],
        None => !(msg is Data),
    }
    &&& match msg {
        LinkMsg::Ack { received } => heard.contains(received),
        _ => true,
    }
}

/// Whether everything that waits for transmission over a link may be sent.
pub open spec fn link_outgoing(l: LinkState, stream: Seq<ReliableMsg>, heard: Set<SeqNum>) -> bool {
    &&& (l.tx.tx_msg matches Some(msg) ==> may_send(msg, l.tx.tx_data, stream, heard))
    &&& forall|k: int| 0 <= k < l.acks.len() ==> heard.contains(#[trigger] l.acks[k])
}

/// Whether everything that waits for transmission may be sent.
pub open spec fn outgoing(s: TaskState, stream: Seq<ReliableMsg>, heard: Set<SeqNum>) -> bool {
    forall|i: int| #![trigger s.has(i)] s.has(i) ==> link_outgoing(s.link(i), stream, heard)
}

/// Whether the same is waiting for transmission over a link.
pub open spec fn same_outgoing(a: LinkState, b: LinkState) -> bool {
    &&& a.tx.tx_msg == b.tx.tx_msg
    &&& a.tx.tx_data == b.tx.tx_data
    &&& a.acks == b.acks
}

/// Whether nothing else is waiting for transmission than before.
pub open spec fn nothing_new(s: TaskState, t: TaskState) -> bool {
    forall|i: int| #![trigger t.has(i)] t.has(i) ==> s.has(i) && same_outgoing(s.link(i), t.link(i))
}

/// Whether the reliable message that a step appends and those queued for resending belong to a stream.
pub open spec fn permits(s: TaskState, t: TaskState, stream: Seq<ReliableMsg>, heard: Set<SeqNum>) -> bool {
    &&& (t.tx.tx_seq != s.tx.tx_seq ==> {
        packet_msg(t.tx.packets.last()) matches Some(msg) ==> may_send(
            msg.link_msg(s.tx.tx_seq),
            msg.link_data(),
            stream,
            heard,
        )
    })
    &&& forall|k: int|
        #![trigger s.tx.packets[k]]
        0 <= k < s.tx.packets.len() ==> (s.tx.packets[k].status matches SentReliableStatus::ResendQueued { msg, .. }
            ==> may_send(msg.link_msg(s.tx.packets[k].seq), msg.link_data(), stream, heard))
}

/// If nothing else is waiting for transmission, it may still be sent.
proof fn lemma_nothing_new(s: TaskState, t: TaskState, stream: Seq<ReliableMsg>, heard: Set<SeqNum>)
    requires
        outgoing(s, stream, heard),
        nothing_new(s, t),
    ensures
        outgoing(t, stream, heard),
{
    assert forall|i: int| #![trigger t.has(i)] t.has(i) implies link_outgoing(t.link(i), stream, heard) by {
        assert(s.has(i));
    }
}

/// Replacing a link by one for which the same is waiting.
proof fn lemma_set_link_outgoing(
    s: TaskState,
    id: int,
    link: LinkState,
    stream: Seq<ReliableMsg>,
    heard: Set<SeqNum>,
)
    requires
        outgoing(s, stream, heard),
        s.has(id),
        link_outgoing(link, stream, heard),
    ensures
        outgoing(s.set_link(id, link), stream, heard),
{
    let t = s.set_link(id, link);
    assert forall|i: int| #![trigger t.has(i)] t.has(i) implies link_outgoing(t.link(i), stream, heard) by {
        if i != id {
            assert(s.has(i));
        }
    }
}

/// Sending a message that may be sent.
proof fn lemma_send_msg_outgoing(
    s: TaskState,
    id: usize,
    msg: LinkMsg,
    data: Option<Bytes>,
    now: Instant,
    stream: Seq<ReliableMsg>,
    heard: Set<SeqNum>,
)
    requires
        outgoing(s, stream, heard),
        s.has(id as int),
        may_send(msg, data, stream, heard),
    ensures
        outgoing(s.send_msg(id, msg, data, now), stream, heard),
        s.send_msg(id, msg, data, now).has(id as int),
{
    reveal(TaskState::send_msg);
    let t = s.send_msg(id, msg, data, now);
    let link = s.link(id as int).sent(msg, data, now);
    assert(link_outgoing(s.link(id as int), stream, heard));
    assert(link_outgoing(link, stream, heard));
    assert forall|i: int| #![trigger t.has(i)] t.has(i) implies link_outgoing(t.link(i), stream, heard) by {
        if i != id {
            assert(s.has(i));
        }
    }
}

/// Sending a control message.
proof fn lemma_send_control_outgoing(
    s: TaskState,
    id: usize,
    msg: LinkMsg,
    status: LinkStatus,
    ping: LinkPinging,
    now: Instant,
    stream: Seq<ReliableMsg>,
    heard: Set<SeqNum>,
)
    requires
        outgoing(s, stream, heard),
        s.has(id as int),
        may_send(msg, None, stream, heard),
    ensures
        outgoing(s.send_control(id, msg, status, ping, now), stream, heard),
{
    lemma_send_msg_outgoing(s, id, msg, None, now, stream, heard);
    let t = s.send_msg(id, msg, None, now);
    assert(t.has(id as int));
    lemma_set_link_outgoing(t, id as int, LinkState { status, ping, ..t.link(id as int) }, stream, heard);
}

/// Sending a reliable message that belongs to the stream.
proof fn lemma_send_reliable_outgoing(
    s: TaskState,
    id: usize,
    msg: ReliableMsg,
    now: Instant,
    stream: Seq<ReliableMsg>,
    heard: Set<SeqNum>,
)
    requires
        outgoing(s, stream, heard),
        s.has(id as int),
        permits(s, s.send_reliable(id, msg, now), stream, heard),
    ensures
        outgoing(s.send_reliable(id, msg, now), stream, heard),
{
    let t = s.send_msg(id, msg.link_msg(s.tx.tx_seq), msg.link_data(), now);
    let u = s.send_reliable(id, msg, now);
    assert(t.tx.tx_seq == s.tx.tx_seq) by {
        reveal(TaskState::send_msg);
    }
    assert(packet_msg(u.tx.packets.last()) == Some(msg));
    assert(u.tx.tx_seq == s.tx.tx_seq.plus(1));
    lemma_send_msg_outgoing(s, id, msg.link_msg(s.tx.tx_seq), msg.link_data(), now, stream, heard);
    lemma_nothing_new(t, u, stream, heard);
}

/// Resending a packet.
proof fn lemma_resend_outgoing(
    s: TaskState,
    id: usize,
    now: Instant,
    stream: Seq<ReliableMsg>,
    heard: Set<SeqNum>,
)
    requires
        s.wf(),
        outgoing(s, stream, heard),
        s.has(id as int),
        permits(s, s.resend_reliable(id, now), stream, heard),
        s.tx.resend_queue.len() > 0,
    ensures
        outgoing(s.resend_reliable(id, now), stream, heard),
{
    lemma_wf_buffers(s);
    let f = first_queued(s.tx.packets);
    let other = SentReliable { seq: s.tx.packets[0].seq, status: SentReliableStatus::Received { size: 0 } };
    lemma_first_queued(s.tx.packets, other);
    let p = s.tx.packets[f];
    if let SentReliableStatus::ResendQueued { msg, .. } = p.status {
        let t = s.send_msg(id, msg.link_msg(p.seq), msg.link_data(), now);
        lemma_send_msg_outgoing(s, id, msg.link_msg(p.seq), msg.link_data(), now, stream, heard);
        lemma_nothing_new(t, s.resend_reliable(id, now), stream, heard);
    }
}

/// Flushing, unconfirming and removing a link.
#[verifier::rlimit(40)]
proof fn lemma_unconfirm_outgoing(s: TaskState, id: usize, now: Instant)
    requires
        s.has(id as int),
    ensures
        nothing_new(s, s.flush_link(id, now)),
        forall|reason: NotWorkingReason| nothing_new(s, #[trigger] s.unconfirm(id, reason, now)),
        forall|reason: DisconnectReason| nothing_new(s, #[trigger] s.remove(id, reason, now)),
{
    let f = s.flush_link(id, now);
    assert(nothing_new(s, f));
    assert forall|reason: NotWorkingReason| nothing_new(s, #[trigger] s.unconfirm(id, reason, now)) by {
        let t = s.unconfirm(id, reason, now);
        assert forall|i: int| #![trigger t.has(i)] t.has(i) implies s.has(i) && same_outgoing(
            s.link(i),
            t.link(i),
        ) by {
            assert(f.has(i));
        }
    }
    assert forall|reason: DisconnectReason| nothing_new(s, #[trigger] s.remove(id, reason, now)) by {
        let u = s.unconfirm(id, NotWorkingReason::Disconnecting, now);
        let t = s.remove(id, reason, now);
        lemma_trimmed(u.links.update(id as int, None));
        assert forall|i: int| #![trigger t.has(i)] t.has(i) implies s.has(i) && same_outgoing(
            s.link(i),
            t.link(i),
        ) by {
            assert(u.has(i));
        }
    }
}

/// Sending the size of consumed data.
proof fn lemma_send_consumed_outgoing(
    s: TaskState,
    id: usize,
    now: Instant,
    stream: Seq<ReliableMsg>,
    heard: Set<SeqNum>,
)
    requires
        s.has(id as int),
        outgoing(s, stream, heard),
        permits(s, s.send_consumed(id, now), stream, heard),
    ensures
        outgoing(s.send_consumed(id, now), stream, heard),
{
    reveal(TaskState::send_consumed);
    let msg = ReliableMsg::Consumed(consumed_size(s.rx.consumed));
    lemma_send_reliable_outgoing(s, id, msg, now, stream, heard);
    lemma_nothing_new(s.send_reliable(id, msg, now), s.send_consumed(id, now), stream, heard);
}

/// Sending by priority over a working link.
#[verifier::rlimit(40)]
proof fn lemma_priority_outgoing(
    s: TaskState,
    id: usize,
    flags: SendFlags,
    now: Instant,
    stream: Seq<ReliableMsg>,
    heard: Set<SeqNum>,
)
    requires
        s.wf(),
        s.has(id as int),
        s.allows(flags),
        outgoing(s, stream, heard),
        permits(s, s.send_by_priority(id, flags, now), stream, heard),
    ensures
        outgoing(s.send_by_priority(id, flags, now), stream, heard),
{
    let link = s.link(id as int);
    let t = s.send_by_priority(id, flags, now);
    if flags.consume_ack_required && flags.tx_seq_avail {
        lemma_send_consumed_outgoing(s, id, now, stream, heard);
    } else if flags.resending && link.is_sendable() && flags.non_resendable != Some(link.info.link_id) {
        lemma_resend_outgoing(s, id, now, stream, heard);
    } else if flags.tx_seq_avail && s.closing_msg() is Some {
        let msg = s.closing_msg()->0;
        lemma_send_reliable_outgoing(s, id, msg, now, stream, heard);
        lemma_nothing_new(s.send_reliable(id, msg, now), t, stream, heard);
    } else if flags.tx_seq_avail && link.is_sendable() && data_to_send(s.write_rx, flags.tx_space) is Some {
        lemma_send_data_outgoing(s, id, data_to_send(s.write_rx, flags.tx_space)->0, now, stream, heard);
    } else {
        lemma_unconfirm_outgoing(s, id, now);
        lemma_nothing_new(s, t, stream, heard);
    }
}

/// Sending user data.
proof fn lemma_send_data_outgoing(
    s: TaskState,
    id: usize,
    data: Bytes,
    now: Instant,
    stream: Seq<ReliableMsg>,
    heard: Set<SeqNum>,
)
    requires
        s.has(id as int),
        outgoing(s, stream, heard),
        permits(s, s.send_data(id, data, now), stream, heard),
    ensures
        outgoing(s.send_data(id, data, now), stream, heard),
{
    reveal(TaskState::send_data);
    let t = TaskState { write_rx: Some(PeekableReceiver { peeked: None }), ..s };
    lemma_nothing_new(s, t, stream, heard);
    assert(t.has(id as int));
    lemma_send_reliable_outgoing(t, id, ReliableMsg::Data(data), now, stream, heard);
}

/// A link becoming ready.
#[verifier::rlimit(40)]
proof fn lemma_tx_ready_outgoing(
    s: TaskState,
    id: usize,
    flags: SendFlags,
    now: Instant,
    stream: Seq<ReliableMsg>,
    heard: Set<SeqNum>,
)
    requires
        s.wf(),
        s.has(id as int),
        s.allows(flags),
        outgoing(s, stream, heard),
        permits(s, s.tx_ready(id, flags, now), stream, heard),
    ensures
        outgoing(s.tx_ready(id, flags, now), stream, heard),
{
    reveal(TaskState::tx_ready);
    let link = s.link(id as int);
    let t = s.tx_ready(id, flags, now);
    assert(link_outgoing(link, stream, heard));
    if link.status.needs_tx_accepted {
        let status = LinkStatus { needs_tx_accepted: false, ..link.status };
        lemma_send_control_outgoing(s, id, LinkMsg::Accepted, status, link.ping, now, stream, heard);
    } else if link.ping.send_pong {
        let ping = LinkPinging { send_pong: false, ..link.ping };
        lemma_send_control_outgoing(s, id, LinkMsg::Pong, link.status, ping, now, stream, heard);
    } else if link.status.disconnecting is Some {
        if !link.status.goodbye_sent {
            let status = LinkStatus { goodbye_sent: true, ..link.status };
            lemma_send_control_outgoing(s, id, LinkMsg::Goodbye, status, link.ping, now, stream, heard);
        } else {
            lemma_unconfirm_outgoing(s, id, now);
            assert(nothing_new(s, s.remove(id, DisconnectReason::RemotelyRequested, now)));
            lemma_nothing_new(s, t, stream, heard);
        }
    } else if link.ping.send_ping {
        let ping = LinkPinging { current_ping_sent: Some(now), send_ping: false, ..link.ping };
        lemma_send_control_outgoing(s, id, LinkMsg::Ping, link.status, ping, now, stream, heard);
    } else if link.status.blocked != link.status.blocked_sent {
        let msg = LinkMsg::SetBlock { blocked: link.status.blocked };
        let status = LinkStatus { blocked_sent: link.status.blocked, ..link.status };
        lemma_send_control_outgoing(s, id, msg, status, link.ping, now, stream, heard);
    } else if link.acks.len() > 0 {
        let popped = LinkState { acks: link.acks.drop_first(), ..link };
        assert forall|k: int| 0 <= k < popped.acks.len() implies heard.contains(#[trigger] popped.acks[k]) by {
            assert(popped.acks[k] == link.acks[k + 1]);
        }
        lemma_set_link_outgoing(s, id as int, popped, stream, heard);
        let u = s.set_link(id as int, popped);
        assert(u.has(id as int));
        lemma_send_msg_outgoing(u, id, LinkMsg::Ack { received: link.acks[0] }, None, now, stream, heard);
    } else if link.is_working() {
        lemma_priority_outgoing(s, id, flags, now, stream, heard);
    } else {
        lemma_unconfirm_outgoing(s, id, now);
        lemma_nothing_new(s, t, stream, heard);
    }
}

/// Starting the disconnection of a link.
proof fn lemma_disconnecting_outgoing(s: TaskState, id: usize, initiator: DisconnectInitiator, now: Instant)
    requires
        s.has(id as int),
    ensures
        nothing_new(s, s.start_disconnecting(id, initiator, now)),
{
    let link = s.link(id as int);
    let t = s.set_link(
        id as int,
        LinkState { status: LinkStatus { disconnecting: Some(initiator), ..link.status }, ..link },
    );
    assert(t.has(id as int));
    assert(nothing_new(s, t));
    lemma_unconfirm_outgoing(t, id, now);
    let u = t.unconfirm(id, NotWorkingReason::Disconnecting, now);
    assert(nothing_new(t, u));
    lemma_nothing_new_twice(s, t, u);
}

/// Receiving a reliable message queues an acknowledgement for it.
proof fn lemma_receive_reliable_outgoing(
    s: TaskState,
    id: usize,
    seq: SeqNum,
    msg: ReliableMsg,
    now: Instant,
    stream: Seq<ReliableMsg>,
    heard: Set<SeqNum>,
)
    requires
        s.has(id as int),
        outgoing(s, stream, heard),
        heard.contains(seq),
    ensures
        outgoing(s.receive_reliable(id, seq, msg, now).0, stream, heard),
{
    let link = s.link(id as int).ack_queued(seq, now);
    assert(link_outgoing(s.link(id as int), stream, heard));
    assert(link_outgoing(link, stream, heard));
    let u = s.not_idle(id);
    lemma_nothing_new(s, u, stream, heard);
    assert(u.has(id as int));
    lemma_set_link_outgoing(u, id as int, link, stream, heard);
    lemma_nothing_new(s.queue_ack(id, seq, now), s.receive_reliable(id, seq, msg, now).0, stream, heard);
}

/// Receiving a ping.
proof fn lemma_ping_received_outgoing(s: TaskState, id: usize, data: Option<Bytes>, now: Instant)
    requires
        s.has(id as int),
    ensures
        nothing_new(s, s.receive_msg(id, LinkMsg::Ping, data, now).0),
{
    let link = s.link(id as int);
    let t = s.set_link(id as int, LinkState { ping: LinkPinging { send_pong: true, ..link.ping }, ..link });
    assert(t.has(id as int));
    assert(nothing_new(s, t));
    lemma_unconfirm_outgoing(t, id, now);
    lemma_nothing_new_twice(s, t, t.flush_link(id, now));
}

/// Receiving the reply to a ping.
proof fn lemma_pong_received_outgoing(s: TaskState, id: usize, data: Option<Bytes>, now: Instant)
    requires
        s.has(id as int),
    ensures
        nothing_new(s, s.receive_msg(id, LinkMsg::Pong, data, now).0),
{
    let link = s.link(id as int);
    if let Some(sent) = link.ping.current_ping_sent {
        let t = s.set_link(id as int, link.pong_received(sent, now));
        assert(nothing_new(s, t));
        lemma_tested_once(t, id, now);
        lemma_nothing_new_twice(s, t, t.tested(id, now));
    }
}

/// Testing a link.
proof fn lemma_tested_once(s: TaskState, id: usize, now: Instant)
    ensures
        nothing_new(s, s.tested(id, now)),
{
}

/// Receiving an acknowledgement.
proof fn lemma_ack_received_outgoing(s: TaskState, id: usize, seq: SeqNum, data: Option<Bytes>, now: Instant)
    requires
        s.has(id as int),
    ensures
        nothing_new(s, s.receive_msg(id, LinkMsg::Ack { received: seq }, data, now).0),
{
    let confirmation = s.tx.confirmation(id as int, seq);
    assert(same_outgoing(s.link(id as int), s.link(id as int).ack_handled(seq, confirmation, now)));
}

/// Receiving a request to disconnect.
proof fn lemma_goodbye_received_outgoing(s: TaskState, id: usize, data: Option<Bytes>, now: Instant)
    requires
        s.has(id as int),
    ensures
        nothing_new(s, s.receive_msg(id, LinkMsg::Goodbye, data, now).0),
{
    lemma_unconfirm_outgoing(s, id, now);
    assert(nothing_new(s, s.remove(id, DisconnectReason::LocallyRequested, now)));
    lemma_disconnecting_outgoing(s, id, DisconnectInitiator::Remote, now);
}

/// Receiving another message.
#[verifier::rlimit(40)]
proof fn lemma_receive_msg_outgoing(s: TaskState, id: usize, msg: LinkMsg, data: Option<Bytes>, now: Instant)
    requires
        s.has(id as int),
        ReliableMsg::of_link_msg(msg, data) is None,
    ensures
        nothing_new(s, s.receive_msg(id, msg, data, now).0),
{
    match msg {
        LinkMsg::Ping => lemma_ping_received_outgoing(s, id, data, now),
        LinkMsg::Pong => lemma_pong_received_outgoing(s, id, data, now),
        LinkMsg::Ack { received } => lemma_ack_received_outgoing(s, id, received, data, now),
        LinkMsg::Goodbye => lemma_goodbye_received_outgoing(s, id, data, now),
        _ => {},
    }
}

/// If twice nothing new is waiting, nothing new is waiting.
proof fn lemma_nothing_new_twice(s: TaskState, t: TaskState, u: TaskState)
    requires
        nothing_new(s, t),
        nothing_new(t, u),
    ensures
        nothing_new(s, u),
{
    assert forall|i: int| #![trigger u.has(i)] u.has(i) implies s.has(i) && same_outgoing(s.link(i), u.link(i)) by {
        assert(t.has(i));
    }
}

/// Receiving a message over a link.
proof fn lemma_link_rx_outgoing(
    s: TaskState,
    id: usize,
    msg: LinkMsg,
    data: Option<Bytes>,
    now: Instant,
    stream: Seq<ReliableMsg>,
    heard: Set<SeqNum>,
)
    requires
        s.has(id as int),
        outgoing(s, stream, heard),
        ReliableMsg::of_link_msg(msg, data) matches Some((_, seq)) ==> heard.contains(seq),
    ensures
        outgoing(s.receive_msg(id, msg, data, now).0, stream, heard),
{
    match ReliableMsg::of_link_msg(msg, data) {
        Some((reliable, seq)) => {
            lemma_receive_carried(s, id, msg, data, reliable, seq, now);
            lemma_receive_reliable_outgoing(s, id, seq, reliable, now, stream, heard);
        },
        None => {
            lemma_receive_msg_outgoing(s, id, msg, data, now);
            lemma_nothing_new(s, s.receive_msg(id, msg, data, now).0, stream, heard);
        },
    }
}

/// A link event.
#[verifier::rlimit(40)]
proof fn lemma_link_event_outgoing(
    s: TaskState,
    id: usize,
    event: LinkIntEvent,
    flags: SendFlags,
    now: Instant,
    stream: Seq<ReliableMsg>,
    heard: Set<SeqNum>,
)
    requires
        s.wf(),
        s.allows(flags),
        s.admits_link_event(id, event),
        outgoing(s, stream, heard),
        permits(s, s.handle_link_event(id, event, flags, now).0, stream, heard),
        received_reliable(TaskEvent::LinkEvent { id, event }) matches Some((_, seq)) ==> heard.contains(seq),
    ensures
        outgoing(s.handle_link_event(id, event, flags, now).0, stream, heard),
{
    reveal(TaskState::handle_link_event);
    let t = s.handle_link_event(id, event, flags, now).0;
    match event {
        LinkIntEvent::TxReady => lemma_tx_ready_outgoing(s, id, flags, now, stream, heard),
        LinkIntEvent::Rx { msg, data } => lemma_link_rx_outgoing(s, id, msg, data, now, stream, heard),
        LinkIntEvent::TxError(err) | LinkIntEvent::RxError(err) => {
            lemma_unconfirm_outgoing(s, id, now);
            assert(nothing_new(s, s.remove(id, failure_reason(s, err), now)));
            lemma_nothing_new(s, t, stream, heard);
        },
        LinkIntEvent::Disconnect => {
            lemma_disconnecting_outgoing(s, id, DisconnectInitiator::Local, now);
            lemma_nothing_new(s, t, stream, heard);
        },
        LinkIntEvent::FlushRequired => {
            lemma_unconfirm_outgoing(s, id, now);
            lemma_nothing_new(s, t, stream, heard);
        },
        _ => lemma_nothing_new(s, t, stream, heard),
    }
}

/// Sending a message that closes a channel.
proof fn lemma_close_outgoing(
    s: TaskState,
    u: TaskState,
    msg: ReliableMsg,
    tx_seq_avail: bool,
    now: Instant,
    stream: Seq<ReliableMsg>,
    heard: Set<SeqNum>,
)
    requires
        s.wf(),
        outgoing(s, stream, heard),
        u.links == s.links,
        u.idle == s.idle,
        u.tx == s.tx,
        permits(s, u.close_over_idle(msg, tx_seq_avail, now), stream, heard),
    ensures
        outgoing(u.close_over_idle(msg, tx_seq_avail, now), stream, heard),
{
    lemma_nothing_new(s, u, stream, heard);
    if s.idle.len() > 0 && tx_seq_avail {
        let id = s.idle.last();
        assert(s.idle.contains(id));
        lemma_wf_idle(s, id);
        assert(u.has(id as int));
        lemma_send_reliable_outgoing(u, id, msg, now, stream, heard);
        lemma_nothing_new(u.send_reliable(id, msg, now), u.send_closing(id, msg, now), stream, heard);
    }
}

/// Flushing several links.
proof fn lemma_flush_links_outgoing(s: TaskState, ids: Seq<usize>, now: Instant)
    requires
        forall|k: int| 0 <= k < ids.len() ==> s.has(#[trigger] ids[k] as int),
    ensures
        nothing_new(s, s.flush_links(ids, now)),
    decreases ids.len(),
{
    if ids.len() > 0 {
        assert(s.has(ids[0] as int));
        lemma_unconfirm_outgoing(s, ids[0], now);
        let t = s.flush_link(ids[0], now);
        let rest = ids.drop_first();
        assert forall|k: int| 0 <= k < rest.len() implies t.has(#[trigger] rest[k] as int) by {
            assert(rest[k] == ids[k + 1]);
            assert(s.has(ids[k + 1] as int));
        }
        lemma_flush_links_outgoing(t, rest, now);
        lemma_nothing_new_twice(s, t, t.flush_links(rest, now));
    }
}

/// The end of sending.
proof fn lemma_write_end_outgoing(
    s: TaskState,
    tx_seq_avail: bool,
    now: Instant,
    stream: Seq<ReliableMsg>,
    heard: Set<SeqNum>,
)
    requires
        s.wf(),
        outgoing(s, stream, heard),
        permits(s, s.write_ended(tx_seq_avail, now), stream, heard),
    ensures
        outgoing(s.write_ended(tx_seq_avail, now), stream, heard),
{
    reveal(TaskState::write_ended);
    let u = TaskState { write_rx: None, ..s };
    lemma_close_outgoing(s, u, ReliableMsg::SendFinish, tx_seq_avail, now, stream, heard);
}

/// The end of receiving.
proof fn lemma_read_dropped_outgoing(
    s: TaskState,
    tx_seq_avail: bool,
    now: Instant,
    stream: Seq<ReliableMsg>,
    heard: Set<SeqNum>,
)
    requires
        s.wf(),
        outgoing(s, stream, heard),
        permits(s, s.read_dropped(tx_seq_avail, now), stream, heard),
    ensures
        outgoing(s.read_dropped(tx_seq_avail, now), stream, heard),
{
    reveal(TaskState::read_dropped);
    let u = TaskState { chan: TaskChannels { read_open: false, read_closed_open: false, ..s.chan }, ..s };
    lemma_close_outgoing(s, u, ReliableMsg::ReceiveFinish, tx_seq_avail, now, stream, heard);
}

/// Closing of the receiver.
proof fn lemma_read_closed_outgoing(
    s: TaskState,
    tx_seq_avail: bool,
    now: Instant,
    stream: Seq<ReliableMsg>,
    heard: Set<SeqNum>,
)
    requires
        s.wf(),
        outgoing(s, stream, heard),
        permits(s, s.read_closed(tx_seq_avail, now), stream, heard),
    ensures
        outgoing(s.read_closed(tx_seq_avail, now), stream, heard),
{
    reveal(TaskState::read_closed);
    let u = TaskState { chan: TaskChannels { read_closed_open: false, ..s.chan }, ..s };
    lemma_close_outgoing(s, u, ReliableMsg::ReceiveClose, tx_seq_avail, now, stream, heard);
}

/// Flushing by user request.
proof fn lemma_user_flush_outgoing(s: TaskState, now: Instant)
    requires
        s.links.len() <= usize::MAX,
    ensures
        nothing_new(s, s.start_user_flush(now)),
{
    reveal(TaskState::start_user_flush);
    let ids = if s.info.cfg.ignore_flush {
        Seq::empty()
    } else {
        confirmed_ids(s.links)
    };
    lemma_ids_where(s.links, |l: LinkState| l.status.unconfirmed is None);
    assert forall|k: int| 0 <= k < ids.len() implies s.has(#[trigger] ids[k] as int) by {
        assert(confirmed_ids(s.links)[k] == ids[k]);
    }
    lemma_flush_links_outgoing(s, ids, now);
    let f = s.flush_links(ids, now);
    let t = s.start_user_flush(now);
    assert(t.links == f.links);
    assert forall|i: int| #![trigger t.has(i)] t.has(i) implies f.has(i) && same_outgoing(f.link(i), t.link(i)) by {
        assert(f.has(i));
    }
    lemma_nothing_new_twice(s, f, t);
}

/// Requesting a ping.
proof fn lemma_ping_outgoing(s: TaskState, id: usize, now: Instant)
    requires
        s.has(id as int),
    ensures
        nothing_new(s, s.ping_requested(id, now)),
{
    reveal(TaskState::ping_requested);
    let link = s.link(id as int);
    let u = s.set_link(id as int, LinkState { ping: LinkPinging { send_ping: true, ..link.ping }, ..link });
    assert(nothing_new(s, u));
    assert(u.has(id as int));
    lemma_unconfirm_outgoing(u, id, now);
    lemma_nothing_new_twice(s, u, s.ping_requested(id, now));
}

/// An event.
#[verifier::rlimit(40)]
proof fn lemma_event_outgoing(
    s: TaskState,
    event: TaskEvent,
    flags: SendFlags,
    now: Instant,
    stream: Seq<ReliableMsg>,
    heard: Set<SeqNum>,
)
    requires
        s.wf(),
        s.links.len() <= usize::MAX,
        s.allows(flags),
        s.admits(event, flags),
        outgoing(s, stream, heard),
        permits(s, s.handle_event(event, flags, now).0, stream, heard),
        received_reliable(event) matches Some((_, seq)) ==> heard.contains(seq),
    ensures
        outgoing(s.handle_event(event, flags, now).0, stream, heard),
{
    let t = s.handle_event(event, flags, now).0;
    match event {
        TaskEvent::LinkEvent { id, event } => lemma_link_event_outgoing(s, id, event, flags, now, stream, heard),
        TaskEvent::WriteRx => {
            let id = flags.sendable->0;
            lemma_wf_idle(s, id);
            lemma_send_data_outgoing(s, id, data_to_send(s.write_rx, flags.tx_space)->0, now, stream, heard);
        },
        TaskEvent::SendConsumed => {
            let id = s.idle.last();
            assert(s.idle.contains(id));
            lemma_wf_idle(s, id);
            lemma_send_consumed_outgoing(s, id, now, stream, heard);
        },
        TaskEvent::WriteEnd => lemma_write_end_outgoing(s, flags.tx_seq_avail, now, stream, heard),
        TaskEvent::Flush => {
            lemma_user_flush_outgoing(s, now);
            lemma_nothing_new(s, t, stream, heard);
        },
        TaskEvent::ConfirmTimedOut(id) => {
            lemma_unconfirm_outgoing(s, id, now);
            assert(nothing_new(s, s.unconfirm(id, NotWorkingReason::AckTimeout, now)));
            lemma_nothing_new(s, t, stream, heard);
        },
        TaskEvent::Resend => {
            let id = flags.resendable->0;
            lemma_wf_idle(s, id);
            lemma_resend_outgoing(s, id, now, stream, heard);
        },
        TaskEvent::ReadDropped => lemma_read_dropped_outgoing(s, flags.tx_seq_avail, now, stream, heard),
        TaskEvent::ReadClosed => lemma_read_closed_outgoing(s, flags.tx_seq_avail, now, stream, heard),
        TaskEvent::PingLink(id) => {
            lemma_ping_outgoing(s, id, now);
            lemma_nothing_new(s, t, stream, heard);
        },
        TaskEvent::LinkUnconfirmedTimeout(id)
        | TaskEvent::LinkSendTimeout(id)
        | TaskEvent::LinkPingTimeout(id) => {
            lemma_unconfirm_outgoing(s, id, now);
            assert(nothing_new(s, s.remove(id, DisconnectReason::UnconfirmedTimeout, now)));
            assert(nothing_new(s, s.remove(id, DisconnectReason::SendTimeout, now)));
            assert(nothing_new(s, s.remove(id, DisconnectReason::PingTimeout, now)));
            lemma_nothing_new(s, t, stream, heard);
        },
        _ => lemma_nothing_new(s, t, stream, heard),
    }
}

/// What may be sent still may be sent when the stream has been extended.
proof fn lemma_outgoing_extended(s: TaskState, stream: Seq<ReliableMsg>, longer: Seq<ReliableMsg>, heard: Set<SeqNum>)
    requires
        outgoing(s, stream, heard),
        stream.is_prefix_of(longer),
    ensures
        outgoing(s, longer, heard),
{
    assert forall|i: int| #![trigger s.has(i)] s.has(i) implies link_outgoing(s.link(i), longer, heard) by {
        let l = s.link(i);
        assert(link_outgoing(l, stream, heard));
        if let Some(msg) = l.tx.tx_msg {
            if let Some((reliable, seq)) = ReliableMsg::of_link_msg(msg, l.tx.tx_data) {
                let p = choose|p: int|
                    0 <= p < stream.len() && seq == seq_of(p) && reliable == #[trigger] stream[p];
                assert(longer[p] == stream[p]);
            }
        }
    }
}

/// The stream after an event at the sending endpoint.
pub open spec fn stream_after(s: TaskState, t: TaskState, stream: Seq<ReliableMsg>) -> Seq<ReliableMsg> {
    if t.tx.tx_seq == s.tx.tx_seq {
        stream
    } else {
        stream.push(packet_msg(t.tx.packets.last())->0)
    }
}

/// Whatever happens to a connection, each reliable message that it hands to a link is the message of the stream
/// at the position that its sequence number tells, and each acknowledgement is for a message that has been
/// received over a link.
///
/// `heard` are the sequence numbers of these messages, including that of the message received now, if any.
#[verifier::rlimit(40)]
pub proof fn law_only_stream_is_sent(
    s: TaskState,
    stream: Seq<ReliableMsg>,
    got: Set<int>,
    heard: Set<SeqNum>,
    event: TaskEvent,
    flags: SendFlags,
    now: Instant,
)
    requires
        s.wf(),
        s.links.len() <= usize::MAX,
        s.allows(flags),
        s.admits(event, flags),
        carries(s.tx, stream, got),
        acknowledged(event) matches Some(seq) ==> ack_known(s.tx, stream, got, seq),
        received_reliable(event) matches Some((_, seq)) ==> heard.contains(seq),
        outgoing(s, stream, heard),
    ensures
        ({
            let t = s.handle_event(event, flags, now).0;
            outgoing(t, stream_after(s, t, stream), heard)
        }),
{
    let t = s.handle_event(event, flags, now).0;
    let longer = stream_after(s, t, stream);
    law_events_keep_stream(s, stream, got, event, flags, now);
    lemma_outgoing_extended(s, stream, longer, heard);
    lemma_wf_buffers(s);
    lemma_permitted(s, t, stream, got, heard);
    lemma_event_outgoing(s, event, flags, now, longer, heard);
}

/// The message that is appended and those queued for resending belong to the stream.
proof fn lemma_permitted(s: TaskState, t: TaskState, stream: Seq<ReliableMsg>, got: Set<int>, heard: Set<SeqNum>)
    requires
        s.tx.wf(s.info.cfg.send_buffer),
        carries(s.tx, stream, got),
        extends(t.tx, stream, got),
    ensures
        permits(s, t, stream_after(s, t, stream), heard),
{
    let longer = stream_after(s, t, stream);
    if t.tx.tx_seq != s.tx.tx_seq {
        let msg = packet_msg(t.tx.packets.last())->0;
        assert(longer[stream.len() as int] == msg);
        law_reliable_roundtrip(msg, s.tx.tx_seq);
    }
    assert forall|k: int| #![trigger s.tx.packets[k]] 0 <= k < s.tx.packets.len() implies (
    s.tx.packets[k].status matches SentReliableStatus::ResendQueued { msg, .. } ==> may_send(
        msg.link_msg(s.tx.packets[k].seq),
        msg.link_data(),
        longer,
        heard,
    )) by {
        if let SentReliableStatus::ResendQueued { msg, .. } = s.tx.packets[k].status {
            let p = stream.len() - s.tx.packets.len() + k;
            lemma_packet_position(s.tx, stream, got, s.info.cfg.send_buffer, k);
            law_reliable_roundtrip(msg, s.tx.packets[k].seq);
            assert(longer[p] == stream[p]);
        }
    }
}

/// Unconfirming links.
proof fn lemma_unconfirm_all_outgoing(s: TaskState, ids: Seq<usize>, reason: NotWorkingReason, now: Instant)
    requires
        forall|k: int| 0 <= k < ids.len() ==> s.has(#[trigger] ids[k] as int),
    ensures
        nothing_new(s, s.unconfirm_all(ids, reason, now)),
    decreases ids.len(),
{
    if ids.len() > 0 {
        assert(s.has(ids[0] as int));
        lemma_unconfirm_outgoing(s, ids[0], now);
        let t = s.unconfirm(ids[0], reason, now);
        assert(nothing_new(s, t));
        let rest = ids.drop_first();
        assert forall|k: int| 0 <= k < rest.len() implies t.has(#[trigger] rest[k] as int) by {
            assert(rest[k] == ids[k + 1]);
            assert(s.has(ids[k + 1] as int));
        }
        lemma_unconfirm_all_outgoing(t, rest, reason, now);
        lemma_nothing_new_twice(s, t, t.unconfirm_all(rest, reason, now));
    }
}

/// Testing links.
proof fn lemma_tested_outgoing(s: TaskState, from: usize, to: int, now: Instant)
    ensures
        nothing_new(s, s.all_tested(from, to, now)),
    decreases to - from,
{
    if from < to && from < usize::MAX {
        let t = s.tested(from, now);
        lemma_tested_once(s, from, now);
        lemma_tested_outgoing(t, (from + 1) as usize, to, now);
        lemma_nothing_new_twice(s, t, t.all_tested((from + 1) as usize, to, now));
    }
}

/// Changing all links without changing what is waiting for transmission.
proof fn lemma_map_links_outgoing(s: TaskState, f: spec_fn(LinkState) -> LinkState)
    requires
        forall|l: LinkState| #![trigger f(l)] same_outgoing(l, f(l)),
    ensures
        nothing_new(s, s.map_links(f)),
{
    let t = s.map_links(f);
    assert forall|i: int| #![trigger t.has(i)] t.has(i) implies s.has(i) && same_outgoing(s.link(i), t.link(i)) by {
        assert(t.link(i) == f(s.link(i)));
    }
}

/// Handling too much unconsumable data.
#[verifier::rlimit(40)]
proof fn lemma_overrun_outgoing(s: TaskState, remote: u32, now: Instant)
    requires
        s.wf(),
    ensures
        nothing_new(s, s.overrun_handled(remote, now).overrun_rearmed(now)),
{
    if let Some(_) = s.tx.oldest_unconfirmed() {
        lemma_oldest_unconfirmed(s);
    }
}

/// Changing limits.
#[verifier::rlimit(40)]
proof fn lemma_limits_outgoing(s: TaskState, now: Instant)
    requires
        s.wf(),
    ensures
        nothing_new(s, s.adjust_limits(now)),
{
    reveal(TaskState::adjust_limits);
    if let Some(remote) = s.remote_recv_buffer() {
        lemma_overrun_outgoing(s, remote, now);
        let a = s.overrun_handled(remote, now).overrun_rearmed(now);
        let all_slow = a.all_slow(2);
        let coming = a.coming_seq();
        lemma_map_links_outgoing(a, |l: LinkState| l.limited_by_max_ping(coming));
        let b = a.max_ping_limited();
        lemma_nothing_new_twice(s, a, b);
        let good_ping: Option<u128> = match b.ping_spread_limits() {
            Some((_, good_ping)) => Some(good_ping),
            None => None,
        };
        let coming_b = b.coming_seq();
        if let Some((limit_ping, _)) = b.ping_spread_limits() {
            lemma_map_links_outgoing(b, |l: LinkState| l.limited_by_spread(limit_ping, coming_b));
        }
        let c = b.spread_limited();
        lemma_nothing_new_twice(s, b, c);
        let coming_c = c.coming_seq();
        let single = working_count(c.links) == 1;
        lemma_map_links_outgoing(c, |l: LinkState| l.limit_increased(single, all_slow, good_ping, coming_c));
        let d = c.limits_increased(all_slow, good_ping);
        lemma_nothing_new_twice(s, c, d);
        lemma_map_links_outgoing(d, |l: LinkState| l.consecutive_reset());
        lemma_nothing_new_twice(s, d, d.consecutive_reset(remote));
    }
}

/// What is done before waiting for the next event hands nothing to the links that must be delivered reliably.
#[verifier::rlimit(40)]
pub proof fn law_rounds_send_nothing(s: TaskState, now: Instant)
    requires
        s.wf(),
        s.links.len() <= usize::MAX,
    ensures
        nothing_new(s, s.begin(now).0),
{
    reveal(TaskState::limited);
    reveal(TaskState::links_tested);
    let noted = s.closing_noted(now);
    lemma_frame_wf(s, noted);
    let notified = noted.notified(now);
    lemma_frame_wf(noted, notified);
    assert(nothing_new(s, notified));
    lemma_slow_ids(notified);
    lemma_unconfirm_all_outgoing(notified, notified.slow_ids(), NotWorkingReason::MaxPingExceeded, now);
    lemma_unconfirm_all_wf(notified, notified.slow_ids(), NotWorkingReason::MaxPingExceeded, now);
    let checked = notified.check_limits(now);
    lemma_nothing_new_twice(s, notified, checked);
    lemma_limits_outgoing(checked, now);
    let adjusted = checked.adjust_limits(now);
    lemma_nothing_new_twice(s, checked, adjusted);
    let updated = adjusted.not_working_updated(now);
    assert(nothing_new(adjusted, updated));
    lemma_nothing_new_twice(s, adjusted, updated);
    lemma_tested_outgoing(updated, 0, updated.links.len() as int, now);
    lemma_nothing_new_twice(s, updated, updated.all_tested(0, updated.links.len() as int, now));
}

} // verus!
