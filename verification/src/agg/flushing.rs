//! What flushing by user request waits for.

use crate::agg::delivery::{lemma_receive_carried, lemma_rx_event};
use crate::agg::events::{failure_reason, TaskEvent};
use crate::agg::limits::{ids_where, lemma_ids_where};
use crate::agg::link_int::{DisconnectInitiator, LinkIntEvent, LinkPinging, LinkState, LinkStatus};
use crate::agg::quality::lemma_ids_where_all;
use crate::agg::ready::{data_to_send, SendFlags};
use crate::agg::send::{lemma_remove_wf, lemma_unconfirm_wf};
use crate::agg::state::{lemma_set_link_wf, lemma_wf_link, TaskChannels, TaskState};
use crate::agg::user::confirmed_ids;
use crate::control::{DisconnectReason, NotWorkingReason};
use crate::msg::{LinkMsg, ReliableMsg};
use crate::peekable_mpsc::PeekableReceiver;
use crate::seq::SeqNum;
use crate::time::Instant;
use bytes::Bytes;
use vstd::prelude::*;

verus! {

/// The confirmed links are all found, and no others.
proof fn lemma_confirmed_ids(links: Seq<Option<LinkState>>, id: usize)
    requires
        links.len() <= usize::MAX,
    ensures
        confirmed_ids(links).contains(id) <==> (id < links.len() && links[id as int] is Some
            && links[id as int]->0.status.unconfirmed is None),
{
    let cond = |l: LinkState| l.status.unconfirmed is None;
    lemma_ids_where(links, cond);
    let ids = ids_where(links, cond);
    if ids.contains(id) {
        let k = choose|k: int| 0 <= k < ids.len() && ids[k] == id;
        assert(ids[k] == id);
    }
    if id < links.len() && links[id as int] is Some && links[id as int]->0.status.unconfirmed is None {
        lemma_ids_where_all(links, cond, id as int);
    }
}

/// Flushing several links starts flushing each of them and leaves the others alone.
proof fn lemma_flush_links_at(s: TaskState, ids: Seq<usize>, now: Instant, id: usize)
    requires
        s.has(id as int),
        forall|k: int| 0 <= k < ids.len() ==> s.has(#[trigger] ids[k] as int),
    ensures
        ({
            let t = s.flush_links(ids, now);
            &&& t.has(id as int)
            &&& t.links.len() == s.links.len()
            &&& t.link(id as int).status == s.link(id as int).status
            &&& t.times == s.times
            &&& t.unflushed == s.unflushed
            &&& (ids.contains(id) ==> t.link(id as int).flush.tx_flushing && t.link(id as int).tx.tx_polling == Some(
                now,
            ))
            &&& (!ids.contains(id) ==> t.link(id as int) == s.link(id as int))
        }),
    decreases ids.len(),
{
    if ids.len() > 0 {
        let u = s.flush_link(ids[0], now);
        let rest = ids.drop_first();
        assert(s.has(ids[0] as int));
        assert forall|k: int| 0 <= k < rest.len() implies u.has(#[trigger] rest[k] as int) by {
            assert(rest[k] == ids[k + 1]);
            assert(s.has(ids[k + 1] as int));
        }
        lemma_flush_links_at(u, rest, now, id);
        if ids.contains(id) && id != ids[0] {
            let k = choose|k: int| 0 <= k < ids.len() && ids[k] == id;
            assert(rest[k - 1] == id);
        }
        if rest.contains(id) {
            let k = choose|k: int| 0 <= k < rest.len() && rest[k] == id;
            assert(ids[k + 1] == id);
        }
    }
}

/// After a flush request exactly the links that are confirmed are waited for, and flushing of each of them has been
/// started. If flush requests are ignored, no link is waited for. In either case the user is to be notified.
pub proof fn law_flush_waits_for_all_confirmed_links(s: TaskState, now: Instant, id: usize)
    requires
        s.links.len() <= usize::MAX,
    ensures
        ({
            let t = s.start_user_flush(now);
            let confirmed = s.has(id as int) && s.link(id as int).status.unconfirmed is None;
            &&& t.times.flush_pending
            &&& (!s.info.cfg.ignore_flush ==> t.unflushed.contains(id) == confirmed)
            &&& (!s.info.cfg.ignore_flush && confirmed ==> t.has(id as int) && t.link(id as int).flush.tx_flushing
                && t.link(id as int).tx.tx_polling == Some(now))
            &&& (s.info.cfg.ignore_flush ==> !t.unflushed.contains(id) && t.links == s.links)
        }),
{
    reveal(TaskState::start_user_flush);
    lemma_confirmed_ids(s.links, id);
    let cond = |l: LinkState| l.status.unconfirmed is None;
    lemma_ids_where(s.links, cond);
    let ids = confirmed_ids(s.links);
    assert forall|k: int| 0 <= k < ids.len() implies s.has(#[trigger] ids[k] as int) by {
        assert(ids_where(s.links, cond)[k] == ids[k]);
    }
    if s.has(id as int) {
        lemma_flush_links_at(s, ids, now, id);
    }
    assert(Seq::<usize>::empty().to_set() =~= Set::empty());
}

/// Whether each link that was waited for to be flushed still is, unless it has been removed or unconfirmed.
#[verifier::opaque]
pub open spec fn still_waited_for(s: TaskState, t: TaskState) -> bool {
    &&& t.times.flush_pending == s.times.flush_pending
    &&& forall|id: usize|
        #![trigger t.unflushed.contains(id)]
        s.unflushed.contains(id) ==> t.unflushed.contains(id) || !t.has(id as int) || t.link(
            id as int,
        ).status.unconfirmed is Some
}

/// Whether a step does not concern flushing by user request.
#[verifier::opaque]
pub open spec fn same_flushing(s: TaskState, t: TaskState) -> bool {
    &&& t.unflushed == s.unflushed
    &&& t.times == s.times
}

/// What does not concern flushing by user request ends waiting for no link.
proof fn lemma_same_flushing(s: TaskState, t: TaskState)
    requires
        same_flushing(s, t),
    ensures
        still_waited_for(s, t),
{
    reveal(same_flushing);
    reveal(still_waited_for);
}

/// Unconfirming a link ends waiting for it only.
proof fn lemma_unconfirm_waiting(s: TaskState, id: usize, reason: NotWorkingReason, now: Instant)
    requires
        s.wf(),
        s.has(id as int),
    ensures
        still_waited_for(s, s.unconfirm(id, reason, now)),
{
    reveal(still_waited_for);
    let t = s.unconfirm(id, reason, now);
    lemma_unconfirm_wf(s, id, reason, now);
    assert(t.link(id as int).status.unconfirmed == Some((now, reason)));
    assert(t.unflushed == s.unflushed.remove(id));
}

/// Removing a link ends waiting for it only.
proof fn lemma_remove_waiting(s: TaskState, id: usize, reason: DisconnectReason, now: Instant)
    requires
        s.wf(),
        s.has(id as int),
    ensures
        still_waited_for(s, s.remove(id, reason, now)),
{
    reveal(still_waited_for);
    lemma_remove_wf(s, id, reason, now);
    lemma_unconfirm_wf(s, id, NotWorkingReason::Disconnecting, now);
    assert(s.remove(id, reason, now).unflushed == s.unflushed.remove(id));
}

/// Sending over a link does not concern flushing by user request.
proof fn lemma_link_flushing(s: TaskState, id: usize, now: Instant)
    ensures
        forall|msg: LinkMsg, data: Option<Bytes>| same_flushing(s, #[trigger] s.send_msg(id, msg, data, now)),
        same_flushing(s, s.resend_reliable(id, now)),
        same_flushing(s, s.flush_link(id, now)),
        same_flushing(s, s.become_idle(id, now)),
        same_flushing(s, s.send_ack(id, now)),
        forall|msg: ReliableMsg| same_flushing(s, #[trigger] s.send_reliable(id, msg, now)),
        forall|msg: LinkMsg, status: LinkStatus, ping: LinkPinging|
            same_flushing(s, #[trigger] s.send_control(id, msg, status, ping, now)),
{
    reveal(same_flushing);
    reveal(TaskState::send_msg);
}

/// Sending the size of consumed data does not concern flushing by user request.
proof fn lemma_send_consumed_flushing(s: TaskState, id: usize, now: Instant)
    ensures
        same_flushing(s, s.send_consumed(id, now)),
{
    reveal(same_flushing);
    reveal(TaskState::send_consumed);
    lemma_link_flushing(s, id, now);
    let msg = ReliableMsg::Consumed(crate::agg::ready::consumed_size(s.rx.consumed));
    assert(same_flushing(s, s.send_reliable(id, msg, now)));
}

/// Sending data does not concern flushing by user request.
proof fn lemma_send_data_flushing(s: TaskState, id: usize, data: Bytes, now: Instant)
    ensures
        same_flushing(s, s.send_data(id, data, now)),
{
    reveal(same_flushing);
    reveal(TaskState::send_data);
    let u = TaskState { write_rx: Some(PeekableReceiver { peeked: None }), ..s };
    lemma_link_flushing(u, id, now);
    assert(same_flushing(u, u.send_reliable(id, ReliableMsg::Data(data), now)));
}

/// Closing a channel does not concern flushing by user request.
proof fn lemma_send_closing_flushing(s: TaskState, id: usize, msg: ReliableMsg, now: Instant)
    ensures
        same_flushing(s, s.send_closing(id, msg, now)),
{
    reveal(same_flushing);
    lemma_link_flushing(s, id, now);
    assert(same_flushing(s, s.send_reliable(id, msg, now)));
}

/// Closing a channel over an idle link does not concern flushing by user request.
proof fn lemma_close_flushing(s: TaskState, u: TaskState, msg: ReliableMsg, tx_seq_avail: bool, now: Instant)
    requires
        same_flushing(s, u),
    ensures
        same_flushing(s, u.close_over_idle(msg, tx_seq_avail, now)),
{
    if u.idle.len() > 0 && tx_seq_avail {
        lemma_send_closing_flushing(u, u.idle.last(), msg, now);
        assert(same_flushing(s, u.send_closing(u.idle.last(), msg, now))) by {
            reveal(same_flushing);
        }
    }
}

/// Sending by priority does not concern flushing by user request.
proof fn lemma_priority_flushing(s: TaskState, id: usize, flags: SendFlags, now: Instant)
    ensures
        same_flushing(s, s.send_by_priority(id, flags, now)),
{
    lemma_link_flushing(s, id, now);
    lemma_send_consumed_flushing(s, id, now);
    if let Some(data) = data_to_send(s.write_rx, flags.tx_space) {
        lemma_send_data_flushing(s, id, data, now);
    }
    if let Some(msg) = s.closing_msg() {
        lemma_send_closing_flushing(s, id, msg, now);
    }
}

/// Operations on a link end waiting for no link.
proof fn lemma_link_waiting(s: TaskState, id: usize, now: Instant)
    ensures
        forall|msg: LinkMsg, status: LinkStatus, ping: LinkPinging|
            still_waited_for(s, #[trigger] s.send_control(id, msg, status, ping, now)),
        still_waited_for(s, s.flush_link(id, now)),
        still_waited_for(s, s.send_ack(id, now)),
        still_waited_for(s, s),
{
    lemma_link_flushing(s, id, now);
    lemma_same_flushing(s, s.flush_link(id, now));
    lemma_same_flushing(s, s.send_ack(id, now));
    assert(still_waited_for(s, s)) by {
        reveal(still_waited_for);
    }
    assert forall|msg: LinkMsg, status: LinkStatus, ping: LinkPinging|
        still_waited_for(s, #[trigger] s.send_control(id, msg, status, ping, now)) by {
        lemma_same_flushing(s, s.send_control(id, msg, status, ping, now));
    }
}

/// A link that has become ready ends waiting for a link only if that link is removed.
proof fn lemma_tx_ready_waiting(s: TaskState, id: usize, flags: SendFlags, now: Instant)
    requires
        s.wf(),
        s.has(id as int),
    ensures
        still_waited_for(s, s.tx_ready(id, flags, now)),
{
    lemma_link_waiting(s, id, now);
    lemma_priority_flushing(s, id, flags, now);
    lemma_same_flushing(s, s.send_by_priority(id, flags, now));
    lemma_remove_waiting(s, id, DisconnectReason::RemotelyRequested, now);
    reveal(TaskState::tx_ready);
}

/// Testing a link does not concern flushing by user request.
proof fn lemma_tested_flushing(s: TaskState, u: TaskState, id: usize, now: Instant)
    requires
        same_flushing(s, u),
    ensures
        same_flushing(s, u.tested(id, now)),
{
    reveal(same_flushing);
}

/// Receiving a message ends waiting for a link only if that link is removed or unconfirmed.
proof fn lemma_receive_waiting(s: TaskState, id: usize, msg: LinkMsg, data: Option<Bytes>, now: Instant)
    requires
        s.wf(),
        s.has(id as int),
    ensures
        still_waited_for(s, s.receive_msg(id, msg, data, now).0),
{
    let link = s.link(id as int);
    lemma_link_waiting(s, id, now);
    match msg {
        LinkMsg::Goodbye => {
            lemma_remove_waiting(s, id, DisconnectReason::LocallyRequested, now);
            lemma_disconnecting_waiting(s, id, DisconnectInitiator::Remote, now);
        },
        LinkMsg::Pong => {
            if let Some(sent) = link.ping.current_ping_sent {
                let u = s.set_link(id as int, link.pong_received(sent, now));
                assert(same_flushing(s, u)) by {
                    reveal(same_flushing);
                }
                lemma_tested_flushing(s, u, id, now);
                lemma_same_flushing(s, u.tested(id, now));
            }
        },
        LinkMsg::Ping => {
            let l = LinkState { ping: LinkPinging { send_pong: true, ..link.ping }, ..link };
            assert(same_flushing(s, s.set_link(id as int, l).flush_link(id, now))) by {
                reveal(same_flushing);
            }
            lemma_same_flushing(s, s.set_link(id as int, l).flush_link(id, now));
        },
        LinkMsg::Ack { received } => {
            assert(same_flushing(s, s.ack(id, received, now))) by {
                reveal(same_flushing);
            }
            lemma_same_flushing(s, s.ack(id, received, now));
        },
        LinkMsg::SetBlock { blocked } => {
            let t = s.block_changed(id, LinkStatus { remotely_blocked: blocked, ..link.status }, now);
            assert(same_flushing(s, t)) by {
                reveal(same_flushing);
            }
            lemma_same_flushing(s, t);
        },
        _ => match ReliableMsg::of_link_msg(msg, data) {
            Some((reliable, seq)) => {
                lemma_receive_carried(s, id, msg, data, reliable, seq, now);
                lemma_receive_reliable_flushing(s, id, seq, reliable, now);
                lemma_same_flushing(s, s.receive_reliable(id, seq, reliable, now).0);
            },
            None => {},
        },
    }
}

/// Receiving a reliable message does not concern flushing by user request.
proof fn lemma_receive_reliable_flushing(s: TaskState, id: usize, seq: SeqNum, msg: ReliableMsg, now: Instant)
    ensures
        same_flushing(s, s.receive_reliable(id, seq, msg, now).0),
{
    reveal(same_flushing);
}

/// Disconnecting a link ends waiting for it only.
proof fn lemma_disconnecting_waiting(s: TaskState, id: usize, initiator: DisconnectInitiator, now: Instant)
    requires
        s.wf(),
        s.has(id as int),
    ensures
        still_waited_for(s, s.start_disconnecting(id, initiator, now)),
{
    let link = s.link(id as int);
    let l = LinkState { status: LinkStatus { disconnecting: Some(initiator), ..link.status }, ..link };
    let u = s.set_link(id as int, l);
    lemma_wf_link(s, id as int);
    lemma_set_link_wf(s, id as int, l);
    lemma_unconfirm_waiting(u, id, NotWorkingReason::Disconnecting, now);
    assert(still_waited_for(s, u.unconfirm(id, NotWorkingReason::Disconnecting, now))) by {
        reveal(still_waited_for);
    }
}

/// A link event other than the end of flushing ends waiting for a link only if that link is removed or unconfirmed.
proof fn lemma_link_event_waiting(s: TaskState, id: usize, event: LinkIntEvent, flags: SendFlags, now: Instant)
    requires
        s.wf(),
        s.has(id as int),
        !(event is TxFlushed),
        !(event is Rx),
    ensures
        still_waited_for(s, s.handle_link_event(id, event, flags, now).0),
{
    let t = s.handle_link_event(id, event, flags, now).0;
    lemma_link_waiting(s, id, now);
    reveal(TaskState::handle_link_event);
    match event {
        LinkIntEvent::TxReady => lemma_tx_ready_waiting(s, id, flags, now),
        LinkIntEvent::TxError(err) | LinkIntEvent::RxError(err) => {
            lemma_remove_waiting(s, id, failure_reason(s, err), now);
        },
        LinkIntEvent::Disconnect => lemma_disconnecting_waiting(s, id, DisconnectInitiator::Local, now),
        LinkIntEvent::BlockedChanged(_) | LinkIntEvent::LinkCfgChanged(_) => {
            assert(same_flushing(s, t)) by {
                reveal(same_flushing);
            }
            lemma_same_flushing(s, t);
        },
        _ => {},
    }
}

/// While the user waits for flushing to complete, a link that is waited for no longer is only once it has been
/// flushed, removed or unconfirmed, or when flushing is requested anew.
pub proof fn law_flush_waits_until_flushed(s: TaskState, event: TaskEvent, flags: SendFlags, now: Instant, id: usize)
    requires
        s.wf(),
        s.admits(event, flags),
        !(event is Flush),
        s.unflushed.contains(id),
    ensures
        ({
            let t = s.handle_event(event, flags, now).0;
            &&& t.times.flush_pending == s.times.flush_pending
            &&& !t.unflushed.contains(id) ==> {
                ||| event matches TaskEvent::LinkEvent { id: on, event: LinkIntEvent::TxFlushed } && on == id
                ||| !t.has(id as int)
                ||| t.link(id as int).status.unconfirmed is Some
            }
        }),
{
    let t = s.handle_event(event, flags, now).0;
    match event {
        TaskEvent::LinkEvent { id: on, event: LinkIntEvent::TxFlushed } => lemma_flushed_waiting(s, on, flags, now, id),
        _ => {
            lemma_event_waiting(s, event, flags, now);
            lemma_waiting(s, t, id);
        },
    }
}

/// What is said of a link that is still waited for.
proof fn lemma_waiting(s: TaskState, t: TaskState, id: usize)
    requires
        still_waited_for(s, t),
        s.unflushed.contains(id),
    ensures
        t.times.flush_pending == s.times.flush_pending,
        t.unflushed.contains(id) || !t.has(id as int) || t.link(id as int).status.unconfirmed is Some,
{
    reveal(still_waited_for);
}

/// The end of flushing of a link ends waiting for it only.
proof fn lemma_flushed_waiting(s: TaskState, on: usize, flags: SendFlags, now: Instant, id: usize)
    ensures
        ({
            let t = s.handle_link_event(on, LinkIntEvent::TxFlushed, flags, now).0;
            &&& t.times == s.times
            &&& t.unflushed.contains(id) == (s.unflushed.contains(id) && id != on)
        }),
{
    reveal(TaskState::handle_link_event);
}

/// An event ends waiting for a link only if that link is removed or unconfirmed.
proof fn lemma_event_waiting(s: TaskState, event: TaskEvent, flags: SendFlags, now: Instant)
    requires
        s.wf(),
        s.admits(event, flags),
        !(event is Flush),
        !(event matches TaskEvent::LinkEvent { event: LinkIntEvent::TxFlushed, .. }),
    ensures
        still_waited_for(s, s.handle_event(event, flags, now).0),
{
    let t = s.handle_event(event, flags, now).0;
    match event {
        TaskEvent::LinkEvent { id: on, event: LinkIntEvent::Rx { msg, data } } => {
            lemma_rx_event(s, on, msg, data, flags, now);
            lemma_receive_waiting(s, on, msg, data, now);
        },
        TaskEvent::LinkEvent { id: on, event } => lemma_link_event_waiting(s, on, event, flags, now),
        TaskEvent::ConfirmTimedOut(on) => lemma_unconfirm_waiting(s, on, NotWorkingReason::AckTimeout, now),
        TaskEvent::LinkUnconfirmedTimeout(on) => {
            lemma_remove_waiting(s, on, DisconnectReason::UnconfirmedTimeout, now);
        },
        TaskEvent::LinkSendTimeout(on) => lemma_remove_waiting(s, on, DisconnectReason::SendTimeout, now),
        TaskEvent::LinkPingTimeout(on) => lemma_remove_waiting(s, on, DisconnectReason::PingTimeout, now),
        _ => {
            lemma_other_event_flushing(s, event, flags, now);
            lemma_same_flushing(s, t);
        },
    }
}

/// Other events do not concern flushing by user request.
proof fn lemma_other_event_flushing(s: TaskState, event: TaskEvent, flags: SendFlags, now: Instant)
    requires
        !(event is Flush),
        !(event is LinkEvent),
        !(event is ConfirmTimedOut),
        !(event is LinkUnconfirmedTimeout),
        !(event is LinkSendTimeout),
        !(event is LinkPingTimeout),
    ensures
        same_flushing(s, s.handle_event(event, flags, now).0),
{
    match event {
        TaskEvent::WriteRx => {
            let data = data_to_send(s.write_rx, flags.tx_space)->0;
            lemma_send_data_flushing(s, flags.sendable->0, data, now);
        },
        TaskEvent::SendConsumed => lemma_send_consumed_flushing(s, s.idle.last(), now),
        TaskEvent::WriteEnd | TaskEvent::ReadDropped | TaskEvent::ReadClosed => {
            lemma_channel_flushing(s, flags.tx_seq_avail, now);
        },
        TaskEvent::PingLink(id) => lemma_ping_flushing(s, id, now),
        TaskEvent::Resend => lemma_link_flushing(s, flags.resendable->0, now),
        TaskEvent::NoNewLinks => {
            assert(same_flushing(s, TaskState { chan: TaskChannels { link_rx_open: false, ..s.chan }, ..s })) by {
                reveal(same_flushing);
            }
        },
        _ => {
            assert(same_flushing(s, s)) by {
                reveal(same_flushing);
            }
        },
    }
}

/// Closing channels does not concern flushing by user request.
proof fn lemma_channel_flushing(s: TaskState, tx_seq_avail: bool, now: Instant)
    ensures
        same_flushing(s, s.write_ended(tx_seq_avail, now)),
        same_flushing(s, s.read_dropped(tx_seq_avail, now)),
        same_flushing(s, s.read_closed(tx_seq_avail, now)),
{
    let a = TaskState { write_rx: None, ..s };
    let b = TaskState { chan: TaskChannels { read_open: false, read_closed_open: false, ..s.chan }, ..s };
    let c = TaskState { chan: TaskChannels { read_closed_open: false, ..s.chan }, ..s };
    assert(same_flushing(s, a) && same_flushing(s, b) && same_flushing(s, c)) by {
        reveal(same_flushing);
    }
    lemma_close_flushing(s, a, ReliableMsg::SendFinish, tx_seq_avail, now);
    lemma_close_flushing(s, b, ReliableMsg::ReceiveFinish, tx_seq_avail, now);
    lemma_close_flushing(s, c, ReliableMsg::ReceiveClose, tx_seq_avail, now);
    reveal(TaskState::write_ended);
    reveal(TaskState::read_dropped);
    reveal(TaskState::read_closed);
}

/// Requesting a ping does not concern flushing by user request.
proof fn lemma_ping_flushing(s: TaskState, id: usize, now: Instant)
    ensures
        same_flushing(s, s.ping_requested(id, now)),
{
    reveal(TaskState::ping_requested);
    reveal(same_flushing);
}

/// The user is notified of the completion of flushing exactly if it is pending and no link is waited for any more, and
/// then only once.
pub proof fn law_flush_is_notified_once(s: TaskState, now: Instant)
    requires
        s.begin(now).1 is Ok,
    ensures
        ({
            let round = s.begin(now).1->Ok_0;
            &&& round.flushed <==> s.times.flush_pending && forall|id: usize| !#[trigger] s.unflushed.contains(id)
        }),
        s.notified(now).times.flush_pending ==> exists|id: usize| #[trigger] s.unflushed.contains(id),
{
    if forall|id: usize| !#[trigger] s.unflushed.contains(id) {
        assert(s.unflushed =~= Set::empty());
    }
    if s.unflushed.is_empty() {
        assert forall|id: usize| !#[trigger] s.unflushed.contains(id) by {}
    } else {
        assert(!(s.unflushed =~= Set::empty()));
    }
}

} // verus!
