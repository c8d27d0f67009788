//! What an event does to the exchange of data with the users of both endpoints.

use crate::agg::account::{consumed_by, newly_consumed, newly_sent};
use crate::agg::delivery::{lemma_receive_carried, lemma_rx_event, received_reliable, same_received};
use crate::agg::events::TaskEvent;
use crate::agg::laws::packet_msg;
use crate::agg::limits::{lemma_adjust_limits_wf, lemma_slow_ids, lemma_unconfirm_all_wf};
use crate::agg::link_int::{DisconnectInitiator, LinkIntEvent, LinkPinging, LinkStatus};
use crate::agg::ready::{consumed_size, data_to_send, SendFlags};
use crate::agg::state::{lemma_frame_wf, SendReq, TaskChannels, TaskState};
use crate::agg::testing::lemma_tested_wf;
use crate::agg::user::confirmed_ids;
use crate::buf::content;
use crate::control::{DisconnectReason, NotWorkingReason};
use crate::msg::{LinkMsg, ReliableMsg};
use crate::peekable_mpsc::PeekableReceiver;
use crate::seq::SeqNum;
use crate::time::Instant;
use bytes::Bytes;
use vstd::prelude::*;

verus! {

/// The message that a step has appended to what is sent, if any.
pub open spec fn appended(s: TaskState, t: TaskState) -> Option<ReliableMsg> {
    if t.tx.tx_seq == s.tx.tx_seq {
        None
    } else {
        packet_msg(t.tx.packets.last())
    }
}

/// Requests of the user while none is waiting.
pub open spec fn no_request() -> Option<PeekableReceiver<SendReq>> {
    Some(PeekableReceiver { peeked: None })
}

/// Whether a step that sends neither data of the user nor their end leaves the data of the user alone.
///
/// It may fulfil a request to flush. It may end the acceptance of data, either because the user has no
/// more data or because the remote endpoint does not want any.
pub open spec fn request_kept(s: TaskState, t: TaskState) -> bool {
    ||| t.write_rx == s.write_rx && t.chan.send_finish_sent == s.chan.send_finish_sent
    ||| t.write_rx is None && t.chan.send_finish_sent
    ||| {
        &&& t.write_rx is None
        &&& s.write_rx == no_request()
        &&& t.chan.send_finish_sent == s.chan.send_finish_sent
    }
    ||| {
        &&& s.write_rx == Some(PeekableReceiver { peeked: Some(SendReq::Flush) })
        &&& t.write_rx == no_request()
        &&& t.chan.send_finish_sent == s.chan.send_finish_sent
    }
}

/// Whether a step appends nothing but the waiting data of the user, the end of data after all data has
/// been sent, the size of all data that was consumed since it was last sent, or a message that closes
/// the receiver.
pub open spec fn proper(s: TaskState, t: TaskState) -> bool {
    &&& t.info == s.info
    &&& t.errors.read_error == s.errors.read_error
    &&& (t.tx.tx_seq != s.tx.tx_seq ==> packet_msg(t.tx.packets.last()) is Some)
    &&& match appended(s, t) {
        Some(ReliableMsg::Data(data)) => {
            &&& s.write_rx == Some(PeekableReceiver { peeked: Some(SendReq::Send(data)) })
            &&& t.write_rx == no_request()
        },
        Some(ReliableMsg::SendFinish) => {
            &&& t.write_rx is None
            &&& t.chan.send_finish_sent
            &&& (s.write_rx is None && !s.chan.send_finish_sent) || s.write_rx == no_request()
        },
        _ => request_kept(s, t),
    }
    &&& match appended(s, t) {
        Some(ReliableMsg::Consumed(size)) => size == consumed_size(s.rx.consumed) && t.rx.consumed == 0,
        _ => t.rx.consumed == s.rx.consumed,
    }
}

/// Whether a step that is not the reception of a reliable message is proper, counts the data that it sends,
/// which fits into the specified space, and does not change what has been received.
#[verifier::opaque]
pub open spec fn sound(s: TaskState, t: TaskState, space: u64) -> bool {
    let size = match appended(s, t) {
        Some(msg) => msg.spec_size(),
        None => 0,
    };
    &&& proper(s, t)
    &&& same_received(t.rx, s.rx)
    &&& size <= space
    &&& (s.tx.unconsumed + size <= u64::MAX ==> t.tx.unconsumed == s.tx.unconsumed + size)
}

/// Whether a step does not concern the users.
pub open spec fn unconcerned(s: TaskState, t: TaskState) -> bool {
    &&& t.info == s.info
    &&& t.errors == s.errors
    &&& t.chan == s.chan
    &&& t.write_rx == s.write_rx
    &&& t.rx == s.rx
    &&& t.tx.tx_seq == s.tx.tx_seq
    &&& t.tx.unconsumed == s.tx.unconsumed
}

/// Operations on links do not concern the users.
proof fn lemma_link_unconcerned(s: TaskState, id: usize, now: Instant)
    ensures
        forall|msg: LinkMsg, data: Option<Bytes>| unconcerned(s, #[trigger] s.send_msg(id, msg, data, now)),
        unconcerned(s, s.resend_reliable(id, now)),
        unconcerned(s, s.flush_link(id, now)),
        unconcerned(s, s.become_idle(id, now)),
        forall|reason: NotWorkingReason| unconcerned(s, #[trigger] s.unconfirm(id, reason, now)),
        forall|reason: DisconnectReason| unconcerned(s, #[trigger] s.remove(id, reason, now)),
{
    reveal(TaskState::send_msg);
}

/// A step that does not concern the users is sound.
proof fn lemma_unconcerned_sound(s: TaskState, t: TaskState, space: u64)
    requires
        unconcerned(s, t),
    ensures
        sound(s, t, space),
{
    reveal(sound);
}

/// What fits into a space fits into a larger space.
proof fn lemma_sound_space(s: TaskState, t: TaskState, space: u64, larger: u64)
    requires
        sound(s, t, space),
        space <= larger,
    ensures
        sound(s, t, larger),
{
    reveal(sound);
}

/// Sending a control message does not concern the users.
proof fn lemma_control_unconcerned(
    s: TaskState,
    id: usize,
    msg: LinkMsg,
    status: LinkStatus,
    ping: LinkPinging,
    now: Instant,
)
    ensures
        unconcerned(s, s.send_control(id, msg, status, ping, now)),
{
    reveal(TaskState::send_msg);
}

/// Sending an acknowledgement does not concern the users.
proof fn lemma_ack_unconcerned(s: TaskState, id: usize, now: Instant)
    ensures
        unconcerned(s, s.send_ack(id, now)),
{
    reveal(TaskState::send_msg);
}

/// Operations on links are sound.
proof fn lemma_link_sound(s: TaskState, id: usize, space: u64, now: Instant)
    ensures
        forall|msg: LinkMsg, status: LinkStatus, ping: LinkPinging|
            sound(s, #[trigger] s.send_control(id, msg, status, ping, now), space),
        sound(s, s.send_ack(id, now), space),
        sound(s, s.resend_reliable(id, now), space),
        sound(s, s.flush_link(id, now), space),
        sound(s, s.become_idle(id, now), space),
        forall|reason: NotWorkingReason| sound(s, #[trigger] s.unconfirm(id, reason, now), space),
        forall|reason: DisconnectReason| sound(s, #[trigger] s.remove(id, reason, now), space),
{
    lemma_link_unconcerned(s, id, now);
    lemma_unconcerned_sound(s, s.resend_reliable(id, now), space);
    lemma_unconcerned_sound(s, s.flush_link(id, now), space);
    lemma_unconcerned_sound(s, s.become_idle(id, now), space);
    assert forall|msg: LinkMsg, status: LinkStatus, ping: LinkPinging|
        sound(s, #[trigger] s.send_control(id, msg, status, ping, now), space) by {
        lemma_control_unconcerned(s, id, msg, status, ping, now);
        lemma_unconcerned_sound(s, s.send_control(id, msg, status, ping, now), space);
    }
    lemma_ack_unconcerned(s, id, now);
    lemma_unconcerned_sound(s, s.send_ack(id, now), space);
    assert forall|reason: NotWorkingReason| sound(s, #[trigger] s.unconfirm(id, reason, now), space) by {
        lemma_unconcerned_sound(s, s.unconfirm(id, reason, now), space);
    }
    assert forall|reason: DisconnectReason| sound(s, #[trigger] s.remove(id, reason, now), space) by {
        lemma_unconcerned_sound(s, s.remove(id, reason, now), space);
    }
}

/// Sending a reliable message appends it.
proof fn lemma_send_reliable_effect(s: TaskState, id: usize, msg: ReliableMsg, now: Instant)
    ensures
        ({
            let t = s.send_reliable(id, msg, now);
            &&& t.info == s.info
            &&& t.errors == s.errors
            &&& t.chan == s.chan
            &&& t.write_rx == s.write_rx
            &&& t.rx == s.rx
            &&& t.tx.tx_seq != s.tx.tx_seq
            &&& appended(s, t) == Some(msg)
            &&& (s.tx.unconsumed + msg.spec_size() <= u64::MAX ==> t.tx.unconsumed == s.tx.unconsumed
                + msg.spec_size())
        }),
{
    lemma_link_unconcerned(s, id, now);
    let u = s.send_msg(id, msg.link_msg(s.tx.tx_seq), msg.link_data(), now);
    let t = s.send_reliable(id, msg, now);
    assert(unconcerned(s, u));
    assert(t.tx.tx_seq == s.tx.tx_seq.plus(1));
    assert(s.tx.tx_seq.plus(1) != s.tx.tx_seq);
}

/// Sending the size of consumed data.
proof fn lemma_send_consumed_effect(s: TaskState, id: usize, now: Instant)
    ensures
        sound(s, s.send_consumed(id, now), 0),
{
    reveal(sound);
    reveal(TaskState::send_consumed);
    lemma_send_reliable_effect(s, id, ReliableMsg::Consumed(consumed_size(s.rx.consumed)), now);
}

/// Sending waiting data.
proof fn lemma_send_data_effect(s: TaskState, id: usize, data: Bytes, now: Instant)
    requires
        s.write_rx == Some(PeekableReceiver { peeked: Some(SendReq::Send(data)) }),
        content(data).len() <= u64::MAX,
    ensures
        sound(s, s.send_data(id, data, now), content(data).len() as u64),
{
    reveal(sound);
    reveal(TaskState::send_data);
    let u = TaskState { write_rx: Some(PeekableReceiver { peeked: None }), ..s };
    lemma_send_reliable_effect(u, id, ReliableMsg::Data(data), now);
}

/// Sending a message that closes a channel.
proof fn lemma_send_closing_effect(s: TaskState, id: usize, now: Instant)
    requires
        s.closing_msg() is Some,
    ensures
        sound(s, s.send_closing(id, s.closing_msg()->0, now), 0),
{
    reveal(sound);
    lemma_send_reliable_effect(s, id, s.closing_msg()->0, now);
}

/// Flushing several links.
proof fn lemma_flush_links_unconcerned(s: TaskState, ids: Seq<usize>, now: Instant)
    ensures
        unconcerned(s, s.flush_links(ids, now)),
    decreases ids.len(),
{
    if ids.len() > 0 {
        lemma_link_unconcerned(s, ids[0], now);
        lemma_flush_links_unconcerned(s.flush_link(ids[0], now), ids.drop_first(), now);
    }
}

/// Sending over a working link.
proof fn lemma_priority_effect(s: TaskState, id: usize, flags: SendFlags, now: Instant)
    ensures
        sound(s, s.send_by_priority(id, flags, now), flags.tx_space),
{
    lemma_link_sound(s, id, flags.tx_space, now);
    lemma_send_consumed_effect(s, id, now);
    lemma_sound_space(s, s.send_consumed(id, now), 0, flags.tx_space);
    if s.closing_msg() is Some {
        lemma_send_closing_effect(s, id, now);
        lemma_sound_space(s, s.send_closing(id, s.closing_msg()->0, now), 0, flags.tx_space);
    }
    if let Some(data) = data_to_send(s.write_rx, flags.tx_space) {
        lemma_send_data_effect(s, id, data, now);
        lemma_sound_space(s, s.send_data(id, data, now), content(data).len() as u64, flags.tx_space);
    }
}

/// A link becoming ready.
proof fn lemma_tx_ready_effect(s: TaskState, id: usize, flags: SendFlags, now: Instant)
    ensures
        sound(s, s.tx_ready(id, flags, now), flags.tx_space),
{
    lemma_link_sound(s, id, flags.tx_space, now);
    lemma_priority_effect(s, id, flags, now);
    lemma_unconcerned_sound(s, s, flags.tx_space);
    reveal(TaskState::tx_ready);
}

/// Receiving a reliable message.
#[verifier::spinoff_prover]
proof fn lemma_receive_reliable_effect(s: TaskState, id: usize, seq: SeqNum, msg: ReliableMsg, now: Instant)
    ensures
        ({
            let t = s.receive_reliable(id, seq, msg, now).0;
            &&& proper(s, t)
            &&& t.tx.tx_seq == s.tx.tx_seq
            &&& t.tx.unconsumed + consumed_by(s, msg, seq) == s.tx.unconsumed
        }),
{
}

/// Receiving another message.
#[verifier::rlimit(40)]
#[verifier::spinoff_prover]
proof fn lemma_receive_msg_unconcerned(s: TaskState, id: usize, msg: LinkMsg, data: Option<Bytes>, now: Instant)
    requires
        ReliableMsg::of_link_msg(msg, data) is None,
    ensures
        unconcerned(s, s.receive_msg(id, msg, data, now).0),
{
    let link = s.link(id as int);
    match msg {
        LinkMsg::Pong => {
            if let Some(sent) = link.ping.current_ping_sent {
                lemma_tested_unconcerned(s.set_link(id as int, link.pong_received(sent, now)), id, now);
            }
        },
        LinkMsg::Goodbye => {
            lemma_link_unconcerned(s, id, now);
            assert(unconcerned(s, s.remove(id, DisconnectReason::LocallyRequested, now)));
            lemma_disconnecting_unconcerned(s, id, DisconnectInitiator::Remote, now);
        },
        _ => {},
    }
}

/// Testing a link.
proof fn lemma_tested_unconcerned(s: TaskState, id: usize, now: Instant)
    ensures
        unconcerned(s, s.tested(id, now)),
{
}

/// Starting the disconnection of a link.
proof fn lemma_disconnecting_unconcerned(s: TaskState, id: usize, initiator: DisconnectInitiator, now: Instant)
    ensures
        unconcerned(s, s.start_disconnecting(id, initiator, now)),
{
}

/// Receiving a message.
proof fn lemma_receive_effect(s: TaskState, id: usize, msg: LinkMsg, data: Option<Bytes>, now: Instant)
    requires
        s.wf(),
    ensures
        ({
            let t = s.receive_msg(id, msg, data, now).0;
            match ReliableMsg::of_link_msg(msg, data) {
                Some((reliable, seq)) => {
                    &&& proper(s, t)
                    &&& t.tx.tx_seq == s.tx.tx_seq
                    &&& t.tx.unconsumed + consumed_by(s, reliable, seq) == s.tx.unconsumed
                },
                None => unconcerned(s, t),
            }
        }),
{
    match ReliableMsg::of_link_msg(msg, data) {
        Some((reliable, seq)) => {
            lemma_receive_carried(s, id, msg, data, reliable, seq, now);
            lemma_receive_reliable_effect(s, id, seq, reliable, now);
        },
        None => lemma_receive_msg_unconcerned(s, id, msg, data, now),
    }
}

/// A link event that is not the reception of a message.
#[verifier::spinoff_prover]
proof fn lemma_link_event_effect(s: TaskState, id: usize, event: LinkIntEvent, flags: SendFlags, now: Instant)
    requires
        !(event is Rx),
    ensures
        sound(s, s.handle_link_event(id, event, flags, now).0, flags.tx_space),
{
    reveal(TaskState::handle_link_event);
    let t = s.handle_link_event(id, event, flags, now).0;
    match event {
        LinkIntEvent::TxReady => lemma_tx_ready_effect(s, id, flags, now),
        LinkIntEvent::TxError(_) | LinkIntEvent::RxError(_) | LinkIntEvent::FlushRequired => {
            lemma_link_sound(s, id, flags.tx_space, now);
        },
        LinkIntEvent::Disconnect => {
            lemma_disconnecting_unconcerned(s, id, DisconnectInitiator::Local, now);
            lemma_unconcerned_sound(s, t, flags.tx_space);
        },
        _ => lemma_unconcerned_sound(s, t, flags.tx_space),
    }
}

/// The end of the data of the user.
proof fn lemma_write_end_effect(s: TaskState, tx_seq_avail: bool, now: Instant)
    requires
        s.write_rx == no_request(),
    ensures
        sound(s, s.write_ended(tx_seq_avail, now), 0),
{
    reveal(sound);
    reveal(TaskState::write_ended);
    let u = TaskState { write_rx: None, ..s };
    lemma_send_reliable_effect(u, u.idle.last(), ReliableMsg::SendFinish, now);
}

/// The receiver being dropped.
proof fn lemma_read_dropped_effect(s: TaskState, tx_seq_avail: bool, now: Instant)
    ensures
        sound(s, s.read_dropped(tx_seq_avail, now), 0),
{
    reveal(sound);
    reveal(TaskState::read_dropped);
    let u = TaskState { chan: TaskChannels { read_open: false, read_closed_open: false, ..s.chan }, ..s };
    lemma_send_reliable_effect(u, u.idle.last(), ReliableMsg::ReceiveFinish, now);
}

/// The receiver being closed.
proof fn lemma_read_closed_effect(s: TaskState, tx_seq_avail: bool, now: Instant)
    ensures
        sound(s, s.read_closed(tx_seq_avail, now), 0),
{
    reveal(sound);
    reveal(TaskState::read_closed);
    let u = TaskState { chan: TaskChannels { read_closed_open: false, ..s.chan }, ..s };
    lemma_send_reliable_effect(u, u.idle.last(), ReliableMsg::ReceiveClose, now);
}

/// Flushing by request of the user.
proof fn lemma_user_flush_effect(s: TaskState, now: Instant)
    requires
        s.write_rx == Some(PeekableReceiver { peeked: Some(SendReq::Flush) }),
    ensures
        sound(s, s.start_user_flush(now), 0),
{
    reveal(sound);
    reveal(TaskState::start_user_flush);
    lemma_flush_links_unconcerned(s, confirmed_ids(s.links), now);
    lemma_flush_links_unconcerned(s, Seq::empty(), now);
}

/// Requesting a ping.
proof fn lemma_ping_unconcerned(s: TaskState, id: usize, now: Instant)
    ensures
        unconcerned(s, s.ping_requested(id, now)),
{
    reveal(TaskState::ping_requested);
}

/// An event that is not the reception of a message.
#[verifier::rlimit(40)]
#[verifier::spinoff_prover]
proof fn lemma_event_effect(s: TaskState, event: TaskEvent, flags: SendFlags, now: Instant)
    requires
        s.admits(event, flags),
        !(event matches TaskEvent::LinkEvent { event: LinkIntEvent::Rx { .. }, .. }),
    ensures
        sound(s, s.handle_event(event, flags, now).0, flags.tx_space),
{
    let t = s.handle_event(event, flags, now).0;
    match event {
        TaskEvent::LinkEvent { id, event } => lemma_link_event_effect(s, id, event, flags, now),
        TaskEvent::WriteRx => {
            let data = data_to_send(s.write_rx, flags.tx_space)->0;
            lemma_send_data_effect(s, flags.sendable->0, data, now);
            lemma_sound_space(s, t, content(data).len() as u64, flags.tx_space);
        },
        TaskEvent::SendConsumed => {
            lemma_send_consumed_effect(s, s.idle.last(), now);
            lemma_sound_space(s, t, 0, flags.tx_space);
        },
        TaskEvent::WriteEnd => {
            lemma_write_end_effect(s, flags.tx_seq_avail, now);
            lemma_sound_space(s, t, 0, flags.tx_space);
        },
        TaskEvent::Flush => {
            lemma_user_flush_effect(s, now);
            lemma_sound_space(s, t, 0, flags.tx_space);
        },
        TaskEvent::ReadDropped => {
            lemma_read_dropped_effect(s, flags.tx_seq_avail, now);
            lemma_sound_space(s, t, 0, flags.tx_space);
        },
        TaskEvent::ReadClosed => {
            lemma_read_closed_effect(s, flags.tx_seq_avail, now);
            lemma_sound_space(s, t, 0, flags.tx_space);
        },
        TaskEvent::Resend => lemma_link_sound(s, flags.resendable->0, flags.tx_space, now),
        TaskEvent::PingLink(id) => {
            lemma_ping_unconcerned(s, id, now);
            lemma_unconcerned_sound(s, t, flags.tx_space);
        },
        TaskEvent::ConfirmTimedOut(id)
        | TaskEvent::LinkUnconfirmedTimeout(id)
        | TaskEvent::LinkSendTimeout(id)
        | TaskEvent::LinkPingTimeout(id) => lemma_link_sound(s, id, flags.tx_space, now),
        TaskEvent::NoNewLinks => {
            reveal(sound);
        },
        _ => lemma_unconcerned_sound(s, t, flags.tx_space),
    }
}

/// Whatever happens to a connection, it appends nothing to what is sent but the data that waits to be sent,
/// the end of data once there is none left, the size of all data consumed since it was last sent and messages
/// that close the receiver. Data that waits to be sent is given up only if the remote endpoint does not want it.
///
/// Nothing but the reception of a reliable message changes what has been received, and the data that is sent
/// is counted until the remote endpoint reports it as consumed.
#[verifier::spinoff_prover]
pub proof fn law_events_send_what_is_written(s: TaskState, event: TaskEvent, flags: SendFlags, now: Instant)
    requires
        s.wf(),
        s.admits(event, flags),
    ensures
        ({
            let t = s.handle_event(event, flags, now).0;
            &&& proper(s, t)
            &&& (received_reliable(event) is None ==> same_received(t.rx, s.rx))
            &&& (s.allows(flags) ==> t.tx.unconsumed + newly_consumed(s, event) == s.tx.unconsumed + newly_sent(
                s.tx,
                t.tx,
            ))
        }),
{
    match event {
        TaskEvent::LinkEvent { id, event: LinkIntEvent::Rx { msg, data } } => {
            lemma_rx_event(s, id, msg, data, flags, now);
            lemma_receive_effect(s, id, msg, data, now);
        },
        _ => {
            lemma_event_effect(s, event, flags, now);
            lemma_sound_counted(s, s.handle_event(event, flags, now).0, flags.tx_space);
        },
    }
}

/// What is said of a sound step.
proof fn lemma_sound_counted(s: TaskState, t: TaskState, space: u64)
    requires
        sound(s, t, space),
    ensures
        proper(s, t),
        same_received(t.rx, s.rx),
        newly_sent(s.tx, t.tx) <= space,
        s.tx.unconsumed + newly_sent(s.tx, t.tx) <= u64::MAX ==> t.tx.unconsumed == s.tx.unconsumed + newly_sent(
            s.tx,
            t.tx,
        ),
{
    reveal(sound);
}

/// Unconfirming several links.
proof fn lemma_unconfirm_all_unconcerned(s: TaskState, ids: Seq<usize>, reason: NotWorkingReason, now: Instant)
    ensures
        unconcerned(s, s.unconfirm_all(ids, reason, now)),
    decreases ids.len(),
{
    if ids.len() > 0 {
        lemma_link_unconcerned(s, ids[0], now);
        lemma_unconfirm_all_unconcerned(s.unconfirm(ids[0], reason, now), ids.drop_first(), reason, now);
    }
}

/// Testing links keeps the invariant and does not concern the users.
proof fn lemma_all_tested(s: TaskState, from: usize, to: int, now: Instant)
    requires
        s.wf(),
    ensures
        s.all_tested(from, to, now).wf(),
        unconcerned(s, s.all_tested(from, to, now)),
    decreases to - from,
{
    if from < to && from < usize::MAX {
        lemma_tested_wf(s, from, now);
        lemma_tested_unconcerned(s, from, now);
        lemma_all_tested(s.tested(from, now), (from + 1) as usize, to, now);
    }
}

/// Adjusting limits does not concern the users.
#[verifier::spinoff_prover]
proof fn lemma_adjust_limits_unconcerned(s: TaskState, now: Instant)
    ensures
        unconcerned(s, s.adjust_limits(now)),
{
    reveal(TaskState::adjust_limits);
    if let Some(remote) = s.remote_recv_buffer() {
        let a = s.overrun_handled(remote, now).overrun_rearmed(now);
        assert(unconcerned(s, a));
        let b = a.max_ping_limited();
        assert(unconcerned(a, b));
        let c = b.spread_limited();
        assert(unconcerned(b, c));
    }
}

/// Checking and adjusting limits keeps the invariant and does not concern the users.
proof fn lemma_limited(s: TaskState, now: Instant)
    requires
        s.wf(),
        s.links.len() <= usize::MAX,
    ensures
        s.limited(now).wf(),
        unconcerned(s, s.limited(now)),
{
    reveal(TaskState::limited);
    lemma_slow_ids(s);
    lemma_unconfirm_all_wf(s, s.slow_ids(), NotWorkingReason::MaxPingExceeded, now);
    lemma_unconfirm_all_unconcerned(s, s.slow_ids(), NotWorkingReason::MaxPingExceeded, now);
    let checked = s.check_limits(now);
    lemma_adjust_limits_wf(checked, now);
    lemma_adjust_limits_unconcerned(checked, now);
    let adjusted = checked.adjust_limits(now);
    lemma_frame_wf(adjusted, adjusted.not_working_updated(now));
}

/// What is done before waiting for the next event keeps the invariant and does not concern the users.
#[verifier::spinoff_prover]
pub proof fn law_rounds_keep_invariant(s: TaskState, now: Instant)
    requires
        s.wf(),
        s.links.len() <= usize::MAX,
    ensures
        s.begin(now).0.wf(),
        unconcerned(s, s.begin(now).0),
{
    let noted = s.closing_noted(now);
    lemma_frame_wf(s, noted);
    let notified = noted.notified(now);
    lemma_frame_wf(noted, notified);
    lemma_limited(notified, now);
    let limited = notified.limited(now);
    lemma_links_tested(limited, now);
}

/// Testing all links keeps the invariant and does not concern the users.
proof fn lemma_links_tested(s: TaskState, now: Instant)
    requires
        s.wf(),
    ensures
        s.links_tested(now).wf(),
        unconcerned(s, s.links_tested(now)),
{
    reveal(TaskState::links_tested);
    lemma_all_tested(s, 0, s.links.len() as int, now);
}

} // verus!
