//! What is sent over a link and what that means for it.

use crate::agg::link_int::{DisconnectInitiator, LinkIntEvent, LinkState, LinkStatus};
use crate::agg::quality::in_use;
use crate::agg::ready::{data_to_send, SendFlags};
use crate::agg::round::shortest;
use crate::agg::send::{first_empty, lemma_first_empty};
use crate::agg::state::{lemma_without, SendReq, TaskState};
use crate::buf::content;
use crate::control::NotWorkingReason;
use crate::error::LinkError;
use crate::msg::{LinkMsg, ReliableMsg};
use crate::peekable_mpsc::PeekableReceiver;
use crate::time::Instant;
use bytes::Bytes;
use vstd::prelude::*;

verus! {

/// A message that is sent over a link that has not failed waits for its transmit sink together with its data. When it
/// was sent is noted, and the link is no longer idle.
pub proof fn law_sent_message_waits_for_sink(l: LinkState, msg: LinkMsg, data: Option<Bytes>, now: Instant)
    requires
        !l.tx.tx_failed,
    ensures
        ({
            let t = l.sent(msg, data, now);
            &&& t.tx.tx_msg == Some(msg)
            &&& t.tx.tx_data == data
            &&& t.tx.tx_polling == Some(now)
            &&& t.flush.tx_last_msg == Some(now)
            &&& t.flush.tx_idle_since is None
            &&& t.tx.tx_error == l.tx.tx_error
            &&& t.status == l.status
            &&& t.ping == l.ping
            &&& t.info == l.info
        }),
{
}

/// Nothing is sent over a link that has failed; its failure is reported instead.
pub proof fn law_failed_link_sends_nothing(l: LinkState, msg: LinkMsg, data: Option<Bytes>, now: Instant)
    requires
        l.tx.tx_failed,
    ensures
        ({
            let t = l.sent(msg, data, now);
            &&& t.tx.tx_msg == l.tx.tx_msg
            &&& t.tx.tx_data == l.tx.tx_data
            &&& t.flush == l.flush
            &&& t.unacked == l.unacked
            &&& t.tx.tx_error is Some
            &&& (l.tx.tx_error is Some ==> t.tx.tx_error == l.tx.tx_error)
            &&& t.pending_error() is Some
        }),
{
}

/// The failure of a link is reported: its last error first and, once that was taken, that it has failed. Nothing is
/// reported of a link that has not failed.
pub proof fn law_failure_is_reported(l: LinkState)
    ensures
        l.tx.tx_error is Some ==> l.pending_error() == l.tx.tx_error,
        l.tx.tx_error is None && l.tx.tx_failed ==> l.pending_error() == Some(LinkError::Failed),
        l.tx.tx_error is None && !l.tx.tx_failed ==> l.pending_error() is None,
        l.error_taken().tx.tx_error is None,
        l.error_taken().tx.tx_failed == l.tx.tx_failed,
{
}

/// Messages that the remote endpoint waits for are flushed at once: that a link was accepted, pings and their replies,
/// the end of data or of a receiver and the farewell. So is any message once enough bytes are unflushed.
pub proof fn law_urgent_messages_are_flushed(l: LinkState, msg: LinkMsg, data: Option<Bytes>, now: Instant)
    requires
        !l.tx.tx_failed,
    ensures
        ({
            let t = l.sent(msg, data, now);
            let len = msg.wire_len() + (match data {
                Some(data) => content(data).len(),
                None => 0,
            });
            let urgent = msg is Accepted || msg is Ping || msg is Pong || msg is SendFinish || msg is ReceiveClose
                || msg is ReceiveFinish || msg is Goodbye;
            let full = l.eff_cfg().unflushed_limit matches Some(limit) && l.flush.txed_unflushed + len >= limit;
            &&& (urgent || full && l.flush.txed_unflushed + len <= u64::MAX ==> t.flush.tx_flushing
                && t.flush.txed_unflushed == 0)
            &&& (!urgent && !full && l.flush.txed_unflushed + len <= u64::MAX ==> t.flush.tx_flushing
                == l.flush.tx_flushing && t.flush.txed_unflushed == l.flush.txed_unflushed + len)
        }),
{
}

/// Acknowledgements, of packets or of consumed data, are counted until the link is flushed, and when the first of them
/// was sent is remembered. Sent data makes the link wait for its acknowledgement.
pub proof fn law_acknowledgements_are_counted(l: LinkState, msg: LinkMsg, now: Instant)
    ensures
        ({
            let t = l.accounted(msg, now);
            let ack = msg is Ack || msg is Consumed;
            &&& (ack ==> t.flush.txed_first_unflushed_ack == Some(
                match l.flush.txed_first_unflushed_ack {
                    Some(first) => first,
                    None => now,
                },
            ))
            &&& (ack && l.flush.txed_acks_unflushed < usize::MAX ==> t.flush.txed_acks_unflushed
                == l.flush.txed_acks_unflushed + 1)
            &&& (!ack ==> t.flush == l.flush)
            &&& (msg is Data ==> t.unacked.txed_unacked is Some)
            &&& (msg matches LinkMsg::Data { seq } ==> (l.unacked.txed_unacked is None ==> t.unacked.txed_unacked == Some(
                seq,
            )))
            &&& (!(msg is Data) ==> t.unacked == l.unacked)
        }),
{
}

/// When the transmit sink becomes ready, data that waits for it is handed over and counts as unflushed from then on. If
/// none does, it is waited for no longer.
pub proof fn law_ready_sink_takes_data(l: LinkState, now: Instant)
    ensures
        ({
            let t = l.ready_ended(true, now);
            &&& (l.tx.tx_data is Some ==> t.tx.tx_data is None && t.tx.tx_polling == l.tx.tx_polling
                && t.flush.txed_first_unflushed_data == Some(
                match l.flush.txed_first_unflushed_data {
                    Some(first) => first,
                    None => now,
                },
            ))
            &&& (l.tx.tx_data is None ==> t.tx.tx_polling is None && t.flush == l.flush)
            &&& l.ready_ended(false, now).tx.tx_failed
            &&& t.tx.tx_failed == l.tx.tx_failed
        }),
{
}

/// Data is sent only if it is what the user has offered and fits into the available space.
pub proof fn law_offered_data_that_fits_is_sent(write_rx: Option<PeekableReceiver<SendReq>>, space: u64)
    ensures
        match data_to_send(write_rx, space) {
            Some(data) => content(data).len() <= space && write_rx == Some(
                PeekableReceiver { peeked: Some(SendReq::Send(data)) },
            ),
            None => write_rx matches Some(rx) ==> (rx.peeked matches Some(SendReq::Send(data)) ==> content(data).len()
                > space),
        },
{
}

/// What a link that is in use and has nothing more urgent to send does, in this order: report consumed data, resend a
/// lost packet, close a channel, send data of the user. Lost packets and data are sent only while it may have more data
/// on its way, and packets are not resent over the link over which they were lost. Only if there is nothing to send
/// does it become idle, or is flushed first, if it may have no more data on its way.
pub proof fn law_sending_follows_priority(s: TaskState, id: usize, flags: SendFlags, now: Instant)
    ensures
        ({
            let l = s.link(id as int);
            let t = s.send_by_priority(id, flags, now);
            let room = l.unacked.txed_unacked_data < l.unacked.txed_unacked_data_limit;
            let report = flags.consume_ack_required && flags.tx_seq_avail;
            let resend = !report && flags.resending && room && flags.non_resendable != Some(l.info.link_id);
            let close = !report && !resend && flags.tx_seq_avail && s.closing_msg() is Some;
            let data = !report && !resend && !close && flags.tx_seq_avail && room && data_to_send(
                s.write_rx,
                flags.tx_space,
            ) is Some;
            let nothing = !report && !resend && !close && !data;
            let flush = nothing && !room && l.flush.txed_first_unflushed_data is Some && !l.flush.tx_flushing;
            &&& (report ==> t == s.send_consumed(id, now))
            &&& (resend ==> t == s.resend_reliable(id, now))
            &&& (close ==> t == s.send_closing(id, s.closing_msg()->0, now))
            &&& (data ==> t == s.send_data(id, data_to_send(s.write_rx, flags.tx_space)->0, now))
            &&& (flush ==> t == s.flush_link(id, now))
            &&& (nothing && !flush ==> t.idle.contains(id) && t.tx == s.tx)
        }),
{
    if !s.idle.contains(id) {
        assert(s.idle.push(id)[s.idle.len() as int] == id);
    }
}

/// The data that is sent is that of the user, and it is no longer waiting then.
pub proof fn law_data_of_user_is_sent(s: TaskState, id: usize, data: Bytes, now: Instant)
    requires
        s.has(id as int),
        !s.link(id as int).tx.tx_failed,
    ensures
        ({
            let t = s.send_data(id, data, now);
            &&& (t.write_rx matches Some(rx) && rx.peeked is None)
            &&& t.has(id as int)
            &&& t.link(id as int).tx.tx_msg == Some(LinkMsg::Data { seq: s.tx.tx_seq })
            &&& t.link(id as int).tx.tx_data == Some(data)
        }),
{
    reveal(TaskState::send_data);
    reveal(TaskState::send_msg);
}

/// What has been consumed is reported with its size, and counting starts anew.
pub proof fn law_consumption_is_reported(s: TaskState, id: usize, now: Instant)
    requires
        s.has(id as int),
        !s.link(id as int).tx.tx_failed,
        s.rx.consumed <= u32::MAX,
    ensures
        ({
            let t = s.send_consumed(id, now);
            &&& t.has(id as int)
            &&& t.link(id as int).tx.tx_msg matches Some(LinkMsg::Consumed { seq, consumed })
            &&& seq == s.tx.tx_seq
            &&& consumed == s.rx.consumed
            &&& t.rx.consumed == 0
            &&& !t.rx.force_ack
        }),
{
    reveal(TaskState::send_consumed);
    reveal(TaskState::send_msg);
}

/// Disconnecting a link stops its use, so that its farewell is sent; who wanted it is remembered.
pub proof fn law_disconnecting_link_is_not_used(
    s: TaskState,
    id: usize,
    initiator: DisconnectInitiator,
    now: Instant,
)
    requires
        s.has(id as int),
    ensures
        ({
            let t = s.start_disconnecting(id, initiator, now);
            &&& t.has(id as int)
            &&& t.link(id as int).status.disconnecting == Some(initiator)
            &&& t.link(id as int).status.unconfirmed == Some((now, NotWorkingReason::Disconnecting))
            &&& t.link(id as int).tx.tx_polling == Some(now)
            &&& t.link(id as int).status.goodbye_sent == s.link(id as int).status.goodbye_sent
        }),
{
}

/// A blocked link is not idle, so that nothing is sent over it. That its blocking has changed is told to the remote
/// endpoint as soon as it is ready.
pub proof fn law_blocked_link_is_not_idle(s: TaskState, id: usize, blocked: bool, flags: SendFlags, now: Instant)
    requires
        s.has(id as int),
    ensures
        ({
            let local = s.handle_link_event(id, LinkIntEvent::BlockedChanged(blocked), flags, now).0;
            let remote = s.receive_msg(id, LinkMsg::SetBlock { blocked }, None, now).0;
            &&& local.link(id as int).status == (LinkStatus { blocked, ..s.link(id as int).status })
            &&& remote.link(id as int).status == (LinkStatus { remotely_blocked: blocked, ..s.link(id as int).status })
            &&& !local.idle.contains(id)
            &&& !remote.idle.contains(id)
            &&& local.link(id as int).tx.tx_polling == Some(now)
            &&& remote.link(id as int).tx.tx_polling == Some(now)
            &&& (blocked ==> !in_use(local.link(id as int)) && !in_use(remote.link(id as int)))
        }),
{
    reveal(TaskState::handle_link_event);
    lemma_without(s.idle, id);
}

/// A new configuration of a link takes effect, and without one the link has that of the connection.
pub proof fn law_changed_cfg_takes_effect(s: TaskState, id: usize, event: LinkIntEvent, flags: SendFlags, now: Instant)
    requires
        s.has(id as int),
        event is LinkCfgChanged,
    ensures
        ({
            let cfg = event->LinkCfgChanged_0;
            let t = s.handle_link_event(id, event, flags, now).0;
            &&& (cfg is Some ==> Some(t.link(id as int).eff_cfg()) == cfg)
            &&& (cfg is None ==> t.link(id as int).eff_cfg() == s.link(id as int).info.cfg.link)
            &&& t.link(id as int).status == s.link(id as int).status
        }),
{
    reveal(TaskState::handle_link_event);
}

/// A new link takes the first place that is free.
pub proof fn law_new_link_takes_first_free_place(s: TaskState, link: LinkState, now: Instant)
    ensures
        ({
            let id = first_empty(s.links);
            let t = s.add(link, now);
            &&& 0 <= id <= s.links.len()
            &&& !s.has(id)
            &&& forall|i: int| 0 <= i < id ==> s.has(i)
            &&& t.has(id)
            &&& t.link(id).info == link.info
            &&& forall|i: int| #![trigger t.links[i]] 0 <= i < s.links.len() && i != id ==> t.links[i] == s.links[i]
        }),
{
    lemma_first_empty(s.links);
    assert forall|i: int| 0 <= i < first_empty(s.links) implies s.has(i) by {
        assert(s.links[i] is Some);
    }
}

/// The data of the user is handed out as long as it wants any, and counts as consumed either way. The end of the data
/// is no error and ends reading.
pub proof fn law_user_consumes(s: TaskState)
    requires
        s.rx.consumable.len() > 0,
    ensures
        ({
            let (t, data) = s.consume();
            &&& t.rx.consumable == s.rx.consumable.drop_first()
            &&& match s.rx.consumable[0].msg {
                ReliableMsg::Data(d) => {
                    &&& data == if s.chan.read_open {
                        Some(d)
                    } else {
                        None
                    }
                    &&& (content(d).len() <= s.rx.size ==> t.rx.size + content(d).len() == s.rx.size)
                    &&& (s.rx.consumed + content(d).len() <= u64::MAX ==> t.rx.consumed == s.rx.consumed + content(
                        d,
                    ).len())
                    &&& t.errors == s.errors
                    &&& t.chan == s.chan
                },
                _ => {
                    &&& data is None
                    &&& t.errors.read_error is None
                    &&& !t.chan.read_open
                    &&& t.rx.force_ack
                    &&& t.chan.receive_finish_sent
                },
            }
        }),
{
}

/// What the user has closed is closed: after the end of its data none is accepted, a dropped receiver gets no more data
/// and one that was only closed still does.
pub proof fn law_channels_are_closed(s: TaskState, tx_seq_avail: bool, now: Instant)
    ensures
        ({
            let ended = s.write_ended(tx_seq_avail, now);
            let dropped = s.read_dropped(tx_seq_avail, now);
            let closed = s.read_closed(tx_seq_avail, now);
            &&& ended.write_rx is None
            &&& ended.chan.read_open == s.chan.read_open
            &&& !dropped.chan.read_open && !dropped.chan.read_closed_open
            &&& dropped.write_rx == s.write_rx
            &&& !closed.chan.read_closed_open && closed.chan.read_open == s.chan.read_open
            &&& closed.write_rx == s.write_rx
            &&& (s.idle.len() > 0 && tx_seq_avail ==> ended.chan.send_finish_sent && dropped.chan.receive_finish_sent
                && closed.chan.receive_close_sent)
            &&& (s.idle.len() == 0 || !tx_seq_avail ==> ended.chan.send_finish_sent == s.chan.send_finish_sent
                && dropped.chan.receive_finish_sent == s.chan.receive_finish_sent && closed.chan.receive_close_sent
                == s.chan.receive_close_sent)
        }),
{
    reveal(TaskState::write_ended);
    reveal(TaskState::read_dropped);
    reveal(TaskState::read_closed);
    reveal(TaskState::send_msg);
}

/// The earliest testing step that is due is waited for: none of the links is due earlier, when it is its turn.
pub proof fn law_earliest_test_is_waited_for(s: TaskState, from: usize, to: int, now: Instant)
    requires
        from < to,
        from < usize::MAX,
    ensures
        ({
            let first = s.test_due(from, now);
            let rest = s.tested(from, now).all_test_due((from + 1) as usize, to, now);
            let due = s.all_test_due(from, to, now);
            &&& (first matches Some(t) ==> due is Some && due->0 <= t)
            &&& (rest matches Some(t) ==> due is Some && due->0 <= t)
            &&& (due == first || due == rest)
        }),
{
}

/// The statistics tell how much is on its way, and they are published once the shortest of the configured intervals has
/// passed since they last were.
pub proof fn law_stats_tell_what_is_on_its_way(s: TaskState, now: Instant)
    ensures
        ({
            let stats = s.stats();
            &&& stats.established == s.times.established
            &&& stats.not_working_since == s.times.links_not_working_since
            &&& stats.send_space == s.tx_space()
            &&& stats.sent_unacked == s.tx.unacked
            &&& stats.sent_unconsumed == s.tx.unconsumed
            &&& stats.sent_unconsumable == s.tx.unconsumable
            &&& (s.tx.resend_queue.len() <= usize::MAX ==> stats.resend_queue_len == s.tx.resend_queue.len())
            &&& (s.tx.packets.len() <= usize::MAX ==> stats.sent_unconsumed_count == s.tx.packets.len())
            &&& stats.recved_unconsumed == s.rx.size
        }),
        s.stats_due(now) <==> (shortest(s.info.cfg.stats_intervals@) matches Some(interval) && (now.nanos
            - s.times.stats_last_sent.nanos >= interval.nanos || interval.nanos == 0)),
        s.stats_due(now) ==> s.stats_sent(now).times.stats_last_sent == now,
        !s.stats_due(now) ==> s.stats_sent(now) == s,
{
}

} // verus!
