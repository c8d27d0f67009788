//! The stream of messages that a connection delivers.

use crate::agg::events::TaskEvent;
use crate::agg::laws::{ack_known, carries, law_ack_keeps_stream};
use crate::agg::laws::{law_resending_keeps_stream, law_send_extends_stream, packet_msg};
use crate::agg::link_int::{DisconnectInitiator, LinkIntEvent, LinkPinging, LinkState, LinkStatus};
use crate::agg::ready::{consumed_size, data_to_send, SendFlags};
use crate::agg::limits::{lemma_adjust_limits_wf, lemma_slow_ids, lemma_unconfirm_all_wf};
use crate::agg::send::{lemma_send_msg_wf, lemma_unconfirm_wf};
use crate::agg::state::{lemma_frame_wf, lemma_set_link_wf, lemma_wf_buffers, lemma_wf_idle, lemma_wf_link};
use crate::agg::state::{TaskChannels, TaskState};
use crate::agg::testing::lemma_tested_wf;
use crate::agg::tx::{first_queued, SentReliableStatus, TxState};
use crate::agg::tx::lemma_flush_wf;
use crate::agg::user::confirmed_ids;
use crate::control::{DisconnectReason, NotWorkingReason};
use crate::msg::{LinkMsg, ReliableMsg};
use crate::peekable_mpsc::PeekableReceiver;
use crate::seq::SeqNum;
use crate::time::Instant;
use bytes::Bytes;
use vstd::prelude::*;

verus! {

/// Whether the send buffer carries a stream, got, or that stream with one more message.
pub open spec fn extends(s: TxState, stream: Seq<ReliableMsg>, got: Set<int>) -> bool {
    ||| carries(s, stream, got)
    ||| {
        &&& s.packets.len() > 0
        &&& packet_msg(s.packets.last()) is Some
        &&& carries(s, stream.push(packet_msg(s.packets.last())->0), got)
    }
}

/// The sequence number that the remote endpoint acknowledges by an event, if it does.
pub open spec fn acknowledged(event: TaskEvent) -> Option<SeqNum> {
    match event {
        TaskEvent::LinkEvent { event: LinkIntEvent::Rx { msg: LinkMsg::Ack { received }, .. }, .. } => Some(received),
        _ => None,
    }
}

/// Sending a message that is not reliable does not change the stream.
proof fn lemma_send_msg_stream(
    s: TaskState,
    stream: Seq<ReliableMsg>,
    got: Set<int>,
    id: usize,
    msg: LinkMsg,
    data: Option<Bytes>,
    now: Instant,
)
    requires
        s.wf(),
        s.has(id as int),
        carries(s.tx, stream, got),
        !(msg is Welcome),
        !(msg is Connect),
    ensures
        carries(s.send_msg(id, msg, data, now).tx, stream, got),
{
    lemma_wf_buffers(s);
    lemma_send_msg_wf(s, id, msg, data, now);
    law_resending_keeps_stream(s.tx, stream, got, id, s.link(id as int).info.link_id, now);
}

/// Sending a reliable message appends it to the stream.
proof fn lemma_send_reliable_stream(
    s: TaskState,
    stream: Seq<ReliableMsg>,
    got: Set<int>,
    id: usize,
    msg: ReliableMsg,
    now: Instant,
)
    requires
        s.wf(),
        s.has(id as int),
        carries(s.tx, stream, got),
    ensures
        carries(s.send_reliable(id, msg, now).tx, stream.push(msg), got),
        extends(s.send_reliable(id, msg, now).tx, stream, got),
{
    let t = s.send_msg(id, msg.link_msg(s.tx.tx_seq), msg.link_data(), now);
    lemma_send_msg_stream(s, stream, got, id, msg.link_msg(s.tx.tx_seq), msg.link_data(), now);
    law_send_extends_stream(t.tx, stream, got, id, t.link(id as int).info.link_id, msg, now);
}

/// Resending a packet does not change the stream.
proof fn lemma_resend_stream(s: TaskState, stream: Seq<ReliableMsg>, got: Set<int>, id: usize, now: Instant)
    requires
        s.wf(),
        s.has(id as int),
        carries(s.tx, stream, got),
        s.tx.resend_queue.len() > 0,
    ensures
        carries(s.resend_reliable(id, now).tx, stream, got),
{
    let p = s.tx.packets[first_queued(s.tx.packets)];
    match p.status {
        SentReliableStatus::ResendQueued { msg, .. } => {
            let t = s.send_msg(id, msg.link_msg(p.seq), msg.link_data(), now);
            lemma_send_msg_stream(s, stream, got, id, msg.link_msg(p.seq), msg.link_data(), now);
            lemma_send_msg_wf(s, id, msg.link_msg(p.seq), msg.link_data(), now);
            lemma_wf_buffers(s);
            lemma_wf_buffers(t);
            law_resending_keeps_stream(t.tx, stream, got, id, t.link(id as int).info.link_id, now);
        },
        _ => {},
    }
}

/// Flushing a link does not change the stream.
proof fn lemma_flush_stream(s: TaskState, stream: Seq<ReliableMsg>, got: Set<int>, id: usize, now: Instant)
    requires
        s.wf(),
        carries(s.tx, stream, got),
    ensures
        carries(s.flush_link(id, now).tx, stream, got),
{
    lemma_wf_buffers(s);
    law_resending_keeps_stream(s.tx, stream, got, id, s.link(id as int).info.link_id, now);
}

/// Unconfirming or removing a link does not change the stream.
proof fn lemma_unconfirm_stream(s: TaskState, stream: Seq<ReliableMsg>, got: Set<int>, id: usize, now: Instant)
    requires
        s.wf(),
        carries(s.tx, stream, got),
    ensures
        forall|reason: NotWorkingReason| carries((#[trigger] s.unconfirm(id, reason, now)).tx, stream, got),
        forall|reason: DisconnectReason| carries((#[trigger] s.remove(id, reason, now)).tx, stream, got),
{
    lemma_wf_buffers(s);
    lemma_flush_stream(s, stream, got, id, now);
    let link = s.link(id as int).info.link_id;
    lemma_flush_wf(s.tx, link, now, s.info.cfg.send_buffer);
    law_resending_keeps_stream(s.tx.flush(link, now), stream, got, id, link, now);
}

/// Flushing several links does not change the stream.
proof fn lemma_flush_links_stream(s: TaskState, stream: Seq<ReliableMsg>, got: Set<int>, ids: Seq<usize>, now: Instant)
    requires
        s.wf(),
        carries(s.tx, stream, got),
        forall|k: int| 0 <= k < ids.len() ==> s.has(#[trigger] ids[k] as int),
    ensures
        carries(s.flush_links(ids, now).tx, stream, got),
    decreases ids.len(),
{
    if ids.len() > 0 {
        assert(s.has(ids[0] as int));
        lemma_flush_stream(s, stream, got, ids[0], now);
        crate::agg::state::lemma_flush_link_wf(s, ids[0], now);
        let t = s.flush_link(ids[0], now);
        let rest = ids.drop_first();
        assert forall|k: int| 0 <= k < rest.len() implies t.has(#[trigger] rest[k] as int) by {
            assert(rest[k] == ids[k + 1]);
            assert(s.has(ids[k + 1] as int));
        }
        lemma_flush_links_stream(t, stream, got, rest, now);
    }
}

/// Sending a message that closes a channel over an idle link appends at most that message.
proof fn lemma_close_stream(
    s: TaskState,
    stream: Seq<ReliableMsg>,
    got: Set<int>,
    msg: ReliableMsg,
    tx_seq_avail: bool,
    now: Instant,
)
    requires
        s.wf(),
        carries(s.tx, stream, got),
    ensures
        extends(s.close_over_idle(msg, tx_seq_avail, now).tx, stream, got),
{
    if s.idle.len() > 0 && tx_seq_avail {
        assert(s.idle.contains(s.idle.last()));
        lemma_wf_idle(s, s.idle.last());
        lemma_send_reliable_stream(s, stream, got, s.idle.last(), msg, now);
    }
}

/// A link becoming ready appends at most one message.
proof fn lemma_tx_ready_stream(
    s: TaskState,
    stream: Seq<ReliableMsg>,
    got: Set<int>,
    id: usize,
    flags: SendFlags,
    now: Instant,
)
    requires
        s.wf(),
        s.has(id as int),
        s.allows(flags),
        carries(s.tx, stream, got),
    ensures
        extends(s.tx_ready(id, flags, now).tx, stream, got),
{
    reveal(TaskState::tx_ready);
    let link = s.link(id as int);
    if link.status.needs_tx_accepted {
        lemma_send_msg_stream(s, stream, got, id, LinkMsg::Accepted, None, now);
    } else if link.ping.send_pong {
        lemma_send_msg_stream(s, stream, got, id, LinkMsg::Pong, None, now);
    } else if link.status.disconnecting is Some {
        lemma_send_msg_stream(s, stream, got, id, LinkMsg::Goodbye, None, now);
        lemma_unconfirm_stream(s, stream, got, id, now);
        assert(carries(s.remove(id, DisconnectReason::RemotelyRequested, now).tx, stream, got));
    } else if link.ping.send_ping {
        lemma_send_msg_stream(s, stream, got, id, LinkMsg::Ping, None, now);
    } else if link.status.blocked != link.status.blocked_sent {
        lemma_send_msg_stream(s, stream, got, id, LinkMsg::SetBlock { blocked: link.status.blocked }, None, now);
    } else if link.acks.len() > 0 {
        let popped = LinkState { acks: link.acks.drop_first(), ..link };
        lemma_wf_link(s, id as int);
        lemma_set_link_wf(s, id as int, popped);
        lemma_send_msg_stream(
            s.set_link(id as int, popped),
            stream,
            got,
            id,
            LinkMsg::Ack { received: link.acks[0] },
            None,
            now,
        );
    } else if link.is_working() {
        lemma_priority_stream(s, stream, got, id, flags, now);
    } else {
        lemma_flush_stream(s, stream, got, id, now);
    }
}

/// Sending over a working link appends at most one message.
proof fn lemma_priority_stream(
    s: TaskState,
    stream: Seq<ReliableMsg>,
    got: Set<int>,
    id: usize,
    flags: SendFlags,
    now: Instant,
)
    requires
        s.wf(),
        s.has(id as int),
        s.allows(flags),
        carries(s.tx, stream, got),
    ensures
        extends(s.send_by_priority(id, flags, now).tx, stream, got),
{
    let link = s.link(id as int);
    if flags.consume_ack_required && flags.tx_seq_avail {
        reveal(TaskState::send_consumed);
        lemma_send_reliable_stream(s, stream, got, id, ReliableMsg::Consumed(consumed_size(s.rx.consumed)), now);
    } else if flags.resending && link.is_sendable() && flags.non_resendable != Some(link.info.link_id) {
        lemma_resend_stream(s, stream, got, id, now);
    } else if flags.tx_seq_avail && s.closing_msg() is Some {
        lemma_send_reliable_stream(s, stream, got, id, s.closing_msg()->0, now);
    } else if flags.tx_seq_avail && link.is_sendable() && data_to_send(s.write_rx, flags.tx_space) is Some {
        lemma_send_data_stream(s, stream, got, id, data_to_send(s.write_rx, flags.tx_space)->0, now);
    } else {
        lemma_flush_stream(s, stream, got, id, now);
    }
}

/// Sending data appends it to the stream.
proof fn lemma_send_data_stream(
    s: TaskState,
    stream: Seq<ReliableMsg>,
    got: Set<int>,
    id: usize,
    data: Bytes,
    now: Instant,
)
    requires
        s.wf(),
        s.has(id as int),
        carries(s.tx, stream, got),
    ensures
        carries(s.send_data(id, data, now).tx, stream.push(ReliableMsg::Data(data)), got),
        extends(s.send_data(id, data, now).tx, stream, got),
{
    reveal(TaskState::send_data);
    let t = TaskState { write_rx: Some(PeekableReceiver { peeked: None }), ..s };
    lemma_frame_wf(s, t);
    assert(t.has(id as int));
    lemma_send_reliable_stream(t, stream, got, id, ReliableMsg::Data(data), now);
}

/// Receiving a message does not change the stream that is sent.
proof fn lemma_receive_stream(
    s: TaskState,
    stream: Seq<ReliableMsg>,
    got: Set<int>,
    id: usize,
    msg: LinkMsg,
    data: Option<Bytes>,
    now: Instant,
)
    requires
        s.wf(),
        s.has(id as int),
        carries(s.tx, stream, got),
        msg matches LinkMsg::Ack { received } ==> ack_known(s.tx, stream, got, received),
    ensures
        carries(s.receive_msg(id, msg, data, now).0.tx, stream, got),
{
    let link = s.link(id as int);
    lemma_wf_link(s, id as int);
    lemma_wf_buffers(s);
    match msg {
        LinkMsg::Ping => {
            let t = s.set_link(
                id as int,
                LinkState { ping: LinkPinging { send_pong: true, ..link.ping }, ..link },
            );
            lemma_set_link_wf(
                s,
                id as int,
                LinkState { ping: LinkPinging { send_pong: true, ..link.ping }, ..link },
            );
            lemma_flush_stream(t, stream, got, id, now);
        },
        LinkMsg::Pong => {
            if let Some(sent) = link.ping.current_ping_sent {
                lemma_set_link_wf(s, id as int, link.pong_received(sent, now));
                lemma_tested_wf(s.set_link(id as int, link.pong_received(sent, now)), id, now);
            }
        },
        LinkMsg::Ack { received } => law_ack_keeps_stream(
            s.tx,
            stream,
            got,
            s.info.cfg.send_buffer,
            id as int,
            received,
        ),
        LinkMsg::Goodbye => {
            lemma_unconfirm_stream(s, stream, got, id, now);
            assert(carries(s.remove(id, DisconnectReason::LocallyRequested, now).tx, stream, got));
            lemma_disconnecting_stream(s, stream, got, id, DisconnectInitiator::Remote, now);
        },
        _ => {},
    }
}

/// Starting the disconnection of a link does not change the stream.
proof fn lemma_disconnecting_stream(
    s: TaskState,
    stream: Seq<ReliableMsg>,
    got: Set<int>,
    id: usize,
    initiator: DisconnectInitiator,
    now: Instant,
)
    requires
        s.wf(),
        s.has(id as int),
        carries(s.tx, stream, got),
    ensures
        carries(s.start_disconnecting(id, initiator, now).tx, stream, got),
{
    let link = s.link(id as int);
    lemma_wf_link(s, id as int);
    let changed = LinkState { status: LinkStatus { disconnecting: Some(initiator), ..link.status }, ..link };
    lemma_set_link_wf(s, id as int, changed);
    lemma_unconfirm_stream(s.set_link(id as int, changed), stream, got, id, now);
    assert(carries(
        s.set_link(id as int, changed).unconfirm(id, NotWorkingReason::Disconnecting, now).tx,
        stream,
        got,
    ));
}

/// A link event appends at most one message to the stream.
proof fn lemma_link_event_stream(
    s: TaskState,
    stream: Seq<ReliableMsg>,
    got: Set<int>,
    id: usize,
    event: LinkIntEvent,
    flags: SendFlags,
    now: Instant,
)
    requires
        s.wf(),
        s.allows(flags),
        s.admits_link_event(id, event),
        carries(s.tx, stream, got),
        acknowledged(TaskEvent::LinkEvent { id, event }) matches Some(seq) ==> ack_known(s.tx, stream, got, seq),
    ensures
        extends(s.handle_link_event(id, event, flags, now).0.tx, stream, got),
{
    reveal(TaskState::handle_link_event);
    match event {
        LinkIntEvent::TxReady => lemma_tx_ready_stream(s, stream, got, id, flags, now),
        LinkIntEvent::Rx { msg, data } => lemma_receive_stream(s, stream, got, id, msg, data, now),
        LinkIntEvent::FlushRequired => lemma_flush_stream(s, stream, got, id, now),
        LinkIntEvent::TxError(err) | LinkIntEvent::RxError(err) => {
            lemma_unconfirm_stream(s, stream, got, id, now);
            assert(carries(s.remove(id, crate::agg::events::failure_reason(s, err), now).tx, stream, got));
        },
        LinkIntEvent::Disconnect => lemma_disconnecting_stream(s, stream, got, id, DisconnectInitiator::Local, now),
        _ => {},
    }
}

/// Whatever happens to a connection, the messages it has accepted for sending stay in the send buffer in
/// the order and with the numbers under which they were accepted, until they are known to be received.
///
/// An event appends at most one message. `got` are the positions of the messages that the remote endpoint has
/// received and that it may therefore acknowledge.
#[verifier::rlimit(40)]
pub proof fn law_events_keep_stream(
    s: TaskState,
    stream: Seq<ReliableMsg>,
    got: Set<int>,
    event: TaskEvent,
    flags: SendFlags,
    now: Instant,
)
    requires
        s.wf(),
        s.links.len() <= usize::MAX,
        s.allows(flags),
        s.admits(event, flags),
        carries(s.tx, stream, got),
        acknowledged(event) matches Some(seq) ==> ack_known(s.tx, stream, got, seq),
    ensures
        extends(s.handle_event(event, flags, now).0.tx, stream, got),
{
    match event {
        TaskEvent::LinkEvent { id, event } => lemma_link_event_stream(s, stream, got, id, event, flags, now),
        TaskEvent::WriteRx => {
            let id = flags.sendable->0;
            lemma_wf_idle(s, id);
            lemma_send_data_stream(s, stream, got, id, data_to_send(s.write_rx, flags.tx_space)->0, now);
        },
        TaskEvent::SendConsumed => {
            let id = s.idle.last();
            assert(s.idle.contains(id));
            lemma_wf_idle(s, id);
            reveal(TaskState::send_consumed);
            lemma_send_reliable_stream(s, stream, got, id, ReliableMsg::Consumed(consumed_size(s.rx.consumed)), now);
        },
        TaskEvent::WriteEnd => {
            reveal(TaskState::write_ended);
            let t = TaskState { write_rx: None, ..s };
            lemma_frame_wf(s, t);
            lemma_close_stream(t, stream, got, ReliableMsg::SendFinish, flags.tx_seq_avail, now);
        },
        TaskEvent::Flush => {
            reveal(TaskState::start_user_flush);
            let ids = if s.info.cfg.ignore_flush {
                Seq::empty()
            } else {
                confirmed_ids(s.links)
            };
            crate::agg::limits::lemma_ids_where(s.links, |l: LinkState| l.status.unconfirmed is None);
            assert forall|k: int| 0 <= k < ids.len() implies s.has(#[trigger] ids[k] as int) by {
                assert(confirmed_ids(s.links)[k] == ids[k]);
            }
            lemma_flush_links_stream(s, stream, got, ids, now);
        },
        TaskEvent::ConfirmTimedOut(id) => {
            lemma_unconfirm_stream(s, stream, got, id, now);
            assert(carries(s.unconfirm(id, NotWorkingReason::AckTimeout, now).tx, stream, got));
        },
        TaskEvent::Resend => {
            let id = flags.resendable->0;
            lemma_wf_idle(s, id);
            lemma_resend_stream(s, stream, got, id, now);
        },
        TaskEvent::ReadDropped => {
            reveal(TaskState::read_dropped);
            let t = TaskState {
                chan: TaskChannels { read_open: false, read_closed_open: false, ..s.chan },
                ..s
            };
            lemma_frame_wf(s, t);
            lemma_close_stream(t, stream, got, ReliableMsg::ReceiveFinish, flags.tx_seq_avail, now);
        },
        TaskEvent::ReadClosed => {
            reveal(TaskState::read_closed);
            let t = TaskState { chan: TaskChannels { read_closed_open: false, ..s.chan }, ..s };
            lemma_frame_wf(s, t);
            lemma_close_stream(t, stream, got, ReliableMsg::ReceiveClose, flags.tx_seq_avail, now);
        },
        TaskEvent::PingLink(id) => {
            reveal(TaskState::ping_requested);
            let link = s.link(id as int);
            let pinged = LinkState { ping: LinkPinging { send_ping: true, ..link.ping }, ..link };
            lemma_wf_link(s, id as int);
            lemma_set_link_wf(s, id as int, pinged);
            lemma_flush_stream(s.set_link(id as int, pinged), stream, got, id, now);
        },
        TaskEvent::LinkUnconfirmedTimeout(id)
        | TaskEvent::LinkSendTimeout(id)
        | TaskEvent::LinkPingTimeout(id) => {
            lemma_unconfirm_stream(s, stream, got, id, now);
            assert(carries(s.remove(id, DisconnectReason::UnconfirmedTimeout, now).tx, stream, got));
            assert(carries(s.remove(id, DisconnectReason::SendTimeout, now).tx, stream, got));
            assert(carries(s.remove(id, DisconnectReason::PingTimeout, now).tx, stream, got));
        },
        _ => {},
    }
}

/// Unconfirming several links does not change the stream.
proof fn lemma_unconfirm_all_stream(
    s: TaskState,
    stream: Seq<ReliableMsg>,
    got: Set<int>,
    ids: Seq<usize>,
    reason: NotWorkingReason,
    now: Instant,
)
    requires
        s.wf(),
        carries(s.tx, stream, got),
        forall|k: int| 0 <= k < ids.len() ==> s.has(#[trigger] ids[k] as int),
    ensures
        carries(s.unconfirm_all(ids, reason, now).tx, stream, got),
    decreases ids.len(),
{
    if ids.len() > 0 {
        assert(s.has(ids[0] as int));
        lemma_unconfirm_stream(s, stream, got, ids[0], now);
        lemma_unconfirm_wf(s, ids[0], reason, now);
        let t = s.unconfirm(ids[0], reason, now);
        let rest = ids.drop_first();
        assert forall|k: int| 0 <= k < rest.len() implies t.has(#[trigger] rest[k] as int) by {
            assert(rest[k] == ids[k + 1]);
            assert(s.has(ids[k + 1] as int));
        }
        lemma_unconfirm_all_stream(t, stream, got, rest, reason, now);
    }
}

/// Testing links does not change the send buffer.
proof fn lemma_tested_tx(s: TaskState, from: usize, to: int, now: Instant)
    requires
        s.wf(),
    ensures
        s.all_tested(from, to, now).tx == s.tx,
    decreases to - from,
{
    if from < to && from < usize::MAX {
        lemma_tested_wf(s, from, now);
        lemma_tested_tx(s.tested(from, now), (from + 1) as usize, to, now);
    }
}

/// What is done before waiting for the next event does not change the stream, got, either.
#[verifier::rlimit(40)]
pub proof fn law_rounds_keep_stream(s: TaskState, stream: Seq<ReliableMsg>, got: Set<int>, now: Instant)
    requires
        s.wf(),
        s.links.len() <= usize::MAX,
        carries(s.tx, stream, got),
    ensures
        carries(s.begin(now).0.tx, stream, got),
{
    reveal(TaskState::limited);
    reveal(TaskState::links_tested);
    let noted = s.closing_noted(now);
    lemma_frame_wf(s, noted);
    let notified = noted.notified(now);
    lemma_frame_wf(noted, notified);
    lemma_slow_ids(notified);
    lemma_unconfirm_all_stream(notified, stream, got, notified.slow_ids(), NotWorkingReason::MaxPingExceeded, now);
    lemma_unconfirm_all_wf(notified, notified.slow_ids(), NotWorkingReason::MaxPingExceeded, now);
    let checked = notified.check_limits(now);
    lemma_adjust_limits_wf(checked, now);
    let adjusted = checked.adjust_limits(now);
    assert(adjusted.tx == checked.tx) by {
        reveal(TaskState::adjust_limits);
    }
    let updated = adjusted.not_working_updated(now);
    lemma_frame_wf(adjusted, updated);
    lemma_tested_tx(updated, 0, updated.links.len() as int, now);
}

} // verus!
