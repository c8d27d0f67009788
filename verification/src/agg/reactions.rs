//! How a connection reacts to what happens to its links.

use crate::agg::events::{msg_termination, TaskEvent};
use crate::agg::link_int::{LinkIntEvent, LinkState, LinkTermination, TxStep};
use crate::agg::ready::SendFlags;
use crate::agg::recv::roundtrip_estimate;
use crate::agg::round::shortest;
use crate::agg::send::{lemma_remove_wf, lemma_unconfirm_wf, retestable, unconfirmed_link};
use crate::agg::state::{RemovedLink, TaskState};
use crate::agg::termination::{FatalConnectError, Termination};
use crate::agg::tx::is_on_link;
use crate::alc::{RecvError, SendError};
use crate::buf::content;
use crate::control::{DisconnectReason, NotWorkingReason};
use crate::error::{LinkError, ProtocolError};
use crate::id::LinkId;
use crate::msg::{LinkMsg, ReliableMsg};
use crate::seq::SeqNum;
use crate::time::{Duration, Instant};
use bytes::Bytes;
use vstd::prelude::*;

verus! {

/// Whether a link has been removed for the specified reason, all others are still there and the owner of the
/// connection will learn of it.
#[verifier::opaque]
pub open spec fn removed_for(s: TaskState, t: TaskState, id: usize, reason: DisconnectReason) -> bool {
    &&& !t.has(id as int)
    &&& forall|i: int| #![trigger t.has(i)] i != id ==> t.has(i) == s.has(i)
    &&& t.removed.len() == s.removed.len() + 1
    &&& t.removed.last() == RemovedLink { id, link_id: s.link(id as int).info.link_id, reason }
    &&& forall|k: int| 0 <= k < s.removed.len() ==> #[trigger] t.removed[k] == s.removed[k]
    &&& !t.idle.contains(id)
    &&& !t.unflushed.contains(id)
}

/// Removing a link removes it, tells the owner of the connection and leaves the other links there.
pub proof fn law_removed_link_is_gone(s: TaskState, id: usize, reason: DisconnectReason, now: Instant)
    requires
        s.wf(),
        s.has(id as int),
    ensures
        removed_for(s, s.remove(id, reason, now), id, reason),
{
    reveal(removed_for);
    lemma_remove_wf(s, id, reason, now);
    lemma_unconfirm_wf(s, id, NotWorkingReason::Disconnecting, now);
}

/// A link that times out is removed for that reason, and the connection goes on.
pub proof fn law_timed_out_link_is_removed(s: TaskState, id: usize, flags: SendFlags, now: Instant)
    requires
        s.wf(),
        s.has(id as int),
    ensures
        ({
            let sending = s.handle_event(TaskEvent::LinkSendTimeout(id), flags, now);
            let pinging = s.handle_event(TaskEvent::LinkPingTimeout(id), flags, now);
            let confirming = s.handle_event(TaskEvent::LinkUnconfirmedTimeout(id), flags, now);
            &&& removed_for(s, sending.0, id, DisconnectReason::SendTimeout)
            &&& removed_for(s, pinging.0, id, DisconnectReason::PingTimeout)
            &&& removed_for(s, confirming.0, id, DisconnectReason::UnconfirmedTimeout)
            &&& sending.1 is None
            &&& pinging.1 is None
            &&& confirming.1 is None
        }),
{
    law_removed_link_is_gone(s, id, DisconnectReason::SendTimeout, now);
    law_removed_link_is_gone(s, id, DisconnectReason::PingTimeout, now);
    law_removed_link_is_gone(s, id, DisconnectReason::UnconfirmedTimeout, now);
}

/// A link over which sending or receiving fails is removed because of that error, or because the connection is closed
/// once sender and receiver are. The connection goes on.
pub proof fn law_failed_link_is_removed(s: TaskState, id: usize, err: LinkError, flags: SendFlags, now: Instant)
    requires
        s.wf(),
        s.has(id as int),
    ensures
        ({
            let tx = s.handle_link_event(id, LinkIntEvent::TxError(err), flags, now);
            let rx = s.handle_link_event(id, LinkIntEvent::RxError(err), flags, now);
            let reason = if s.chan.read_open || s.write_rx is Some {
                DisconnectReason::IoError(err)
            } else {
                DisconnectReason::ConnectionClosed
            };
            &&& removed_for(s, tx.0, id, reason)
            &&& removed_for(s, rx.0, id, reason)
            &&& tx.1 is None
            &&& rx.1 is None
        }),
{
    reveal(TaskState::handle_link_event);
    law_removed_link_is_gone(s, id, DisconnectReason::IoError(err), now);
    law_removed_link_is_gone(s, id, DisconnectReason::ConnectionClosed, now);
}

/// A link that is due for a ping is flushed, and the ping is sent as soon as it is ready.
pub proof fn law_ping_is_sent_when_due(s: TaskState, id: usize, flags: SendFlags, now: Instant)
    requires
        s.has(id as int),
    ensures
        ({
            let (t, end) = s.handle_event(TaskEvent::PingLink(id), flags, now);
            &&& end is None
            &&& t.has(id as int)
            &&& t.link(id as int).ping.send_ping
            &&& t.link(id as int).ping.roundtrip == s.link(id as int).ping.roundtrip
            &&& t.link(id as int).tx.tx_polling == Some(now)
        }),
{
    reveal(TaskState::ping_requested);
}

/// A link over which the acknowledgement of a packet is overdue is not used until it has been confirmed again. What was
/// sent over it and has not been acknowledged will be sent over another link.
pub proof fn law_late_acknowledgement_unconfirms(s: TaskState, id: usize, flags: SendFlags, now: Instant)
    requires
        s.wf(),
        s.has(id as int),
    ensures
        ({
            let (t, end) = s.handle_event(TaskEvent::ConfirmTimedOut(id), flags, now);
            &&& end is None
            &&& t.has(id as int)
            &&& t.link(id as int).status.unconfirmed == Some((now, NotWorkingReason::AckTimeout))
            &&& t.link(id as int).unacked.txed_unacked_data == 0
            &&& !t.idle.contains(id)
            &&& t.tx.packets.len() == s.tx.packets.len()
            &&& forall|k: int|
                #![trigger t.tx.packets[k]]
                0 <= k < s.tx.packets.len() ==> !is_on_link(t.tx.packets[k], id as int) && (is_on_link(
                    s.tx.packets[k],
                    id as int,
                ) ==> t.tx.packets[k].status is ResendQueued)
            &&& forall|i: int| #![trigger t.has(i)] t.has(i) == s.has(i)
        }),
{
    lemma_unconfirm_wf(s, id, NotWorkingReason::AckTimeout, now);
}

/// When a link is unconfirmed, it may have half as much data on its way as before, but at least 128 bytes, and that
/// it was is counted.
pub proof fn law_unconfirmed_link_starts_over(l: LinkState, reason: NotWorkingReason, now: Instant)
    ensures
        ({
            let t = unconfirmed_link(l, reason, now);
            let limit = t.unacked.txed_unacked_data_limit;
            &&& limit >= 128
            &&& (limit > 128 ==> 2 * limit <= l.unacked.txed_unacked_data_limit < 2 * limit + 2)
            &&& (limit == 128 ==> l.unacked.txed_unacked_data_limit < 2 * limit + 2)
            &&& t.unacked.txed_unacked_data_limit_increased is None
            &&& t.unacked.txed_unacked_data_limit_increased_consecutively == 0
            &&& (l.stats.hangs < usize::MAX ==> t.stats.hangs == l.stats.hangs + 1)
            &&& t.ping == l.ping
            &&& t.info == l.info
        }),
{
}

/// When a link is unconfirmed, the tests that other links have failed may be repeated at once.
pub proof fn law_failed_tests_are_repeated_when_needed(l: LinkState)
    ensures
        retestable(Some(l)) matches Some(t) && !(t.status.test is Failed) && t.status.unconfirmed
            == l.status.unconfirmed && (!(l.status.test is Failed) ==> t == l),
        retestable(None) is None,
{
}

/// A connection ends at once when that is requested, when no link has been working for too
/// long and when the server turns out to be another one or has closed the connection.
pub proof fn law_what_ends_a_connection(s: TaskState, event: TaskEvent, flags: SendFlags, now: Instant)
    requires
        !(event is LinkEvent),
    ensures
        s.handle_event(event, flags, now).1 == match event {
            TaskEvent::Terminate => Some(Termination::Local),
            TaskEvent::NoLinksTimeout => Some(Termination::NoLinksTimeout),
            TaskEvent::FatalConnectError(FatalConnectError::ServerIdMismatch) => Some(Termination::ServerIdMismatch),
            TaskEvent::FatalConnectError(FatalConnectError::Closed) => Some(Termination::AbortedByServer),
            _ => None,
        },
        event is NoNewLinks ==> !s.handle_event(event, flags, now).0.chan.link_rx_open,
{
}

/// A message ends the connection exactly if it demands that or violates the protocol, which is told then.
pub proof fn law_message_ends_connection(link_id: LinkId, outcome: Result<bool, ProtocolError>)
    ensures
        match outcome {
            Ok(terminated) => msg_termination(link_id, outcome) == if terminated {
                Some(Termination::Remote)
            } else {
                None
            },
            Err(error) => msg_termination(link_id, outcome) == Some(Termination::Protocol { link_id, error }),
        },
{
}

/// The user learns why a connection has ended: nothing of it is an error for reading if it was closed, and reading and
/// writing report the same cause otherwise.
pub proof fn law_cause_is_reported(t: Termination)
    ensures
        t.recv_error() is None <==> t == Termination::Closed,
        t == Termination::Closed ==> t.send_error() == SendError::Closed,
        t.recv_error() == Some(RecvError::AllLinksFailed) <==> t == Termination::NoMoreLinks || t
            == Termination::NoLinksTimeout,
        t.send_error() == SendError::AllLinksFailed <==> t.recv_error() == Some(RecvError::AllLinksFailed),
        t is Protocol <==> t.recv_error() == Some(RecvError::ProtocolError),
        t is Protocol <==> t.send_error() == SendError::ProtocolError,
        t == Termination::ServerIdMismatch <==> t.recv_error() == Some(RecvError::ServerIdMismatch),
        t == Termination::ServerIdMismatch <==> t.send_error() == SendError::ServerIdMismatch,
        t == Termination::AbortedByServer <==> t.recv_error() == Some(RecvError::AbortedByServer),
        t == Termination::AbortedByServer <==> t.send_error() == SendError::AbortedByServer,
        t == Termination::Local || t == Termination::Remote <==> t.recv_error() == Some(RecvError::TaskTerminated),
        t == Termination::Local || t == Termination::Remote <==> t.send_error() == SendError::TaskTerminated,
{
}

/// When a connection has ended, nothing is read or written any more, and an error that the user has not been told
/// before is that of its end.
pub proof fn law_end_is_reported(s: TaskState, t: Termination)
    ensures
        ({
            let e = s.ended(t);
            &&& !e.chan.read_open
            &&& e.write_rx is None
            &&& (s.errors.read_error == Some(RecvError::TaskTerminated) ==> e.errors.read_error == t.recv_error())
            &&& (s.errors.read_error != Some(RecvError::TaskTerminated) ==> e.errors.read_error
                == s.errors.read_error)
            &&& (s.errors.write_error == SendError::TaskTerminated ==> e.errors.write_error == t.send_error())
            &&& (s.errors.write_error != SendError::TaskTerminated ==> e.errors.write_error == s.errors.write_error)
        }),
{
}

/// A link that has become ready sends what is most urgent: that it was accepted, the reply to a ping, its farewell, a
/// ping, whether it is blocked, and acknowledgements in the order in which they were queued, one at a time.
pub proof fn law_urgent_messages_go_first(s: TaskState, id: usize, flags: SendFlags, now: Instant)
    requires
        s.has(id as int),
        !s.link(id as int).tx.tx_failed,
    ensures
        ({
            let l = s.link(id as int);
            let m = s.tx_ready(id, flags, now).link(id as int);
            let accepted = l.status.needs_tx_accepted;
            let pong = !accepted && l.ping.send_pong;
            let leaving = !accepted && !pong && l.status.disconnecting is Some;
            let ping = !accepted && !pong && !leaving && l.ping.send_ping;
            let block = !accepted && !pong && !leaving && !ping && l.status.blocked != l.status.blocked_sent;
            let ack = !accepted && !pong && !leaving && !ping && !block && l.acks.len() > 0;
            &&& (accepted ==> m.tx.tx_msg == Some(LinkMsg::Accepted) && !m.status.needs_tx_accepted)
            &&& (pong ==> m.tx.tx_msg == Some(LinkMsg::Pong) && !m.ping.send_pong)
            &&& (leaving && !l.status.goodbye_sent ==> m.tx.tx_msg == Some(LinkMsg::Goodbye) && m.status.goodbye_sent)
            &&& (ping ==> m.tx.tx_msg == Some(LinkMsg::Ping) && !m.ping.send_ping && m.ping.current_ping_sent == Some(
                now,
            ))
            &&& (block ==> m.tx.tx_msg == Some(LinkMsg::SetBlock { blocked: l.status.blocked })
                && m.status.blocked_sent == l.status.blocked)
            &&& (ack ==> m.tx.tx_msg == Some(LinkMsg::Ack { received: l.acks[0] }) && m.acks == l.acks.drop_first())
        }),
{
    reveal(TaskState::tx_ready);
    reveal(TaskState::send_msg);
}

/// The reply to a ping ends waiting for it and tells the roundtrip time, which is the time that has passed since it was
/// sent.
pub proof fn law_pong_measures_roundtrip(l: LinkState, sent: Instant, now: Instant)
    requires
        sent.nanos <= now.nanos,
    ensures
        ({
            let t = l.pong_received(sent, now);
            &&& sent.nanos + t.ping.roundtrip.nanos == now.nanos
            &&& t.ping.current_ping_sent is None
            &&& t.ping.last_ping == Some(now)
            &&& t.ping.roundtrip_estimates == Some(1usize)
            &&& t.ping.send_ping == l.ping.send_ping
        }),
{
}

/// A ping is answered: the reply is sent as soon as the link is ready.
pub proof fn law_ping_is_answered(s: TaskState, id: usize, now: Instant)
    requires
        s.has(id as int),
    ensures
        ({
            let (t, outcome) = s.receive_msg(id, LinkMsg::Ping, None, now);
            &&& outcome == Ok::<bool, ProtocolError>(false)
            &&& t.link(id as int).ping.send_pong
            &&& t.link(id as int).tx.tx_polling == Some(now)
        }),
{
}

/// The estimate of the roundtrip time moves towards what has been measured and never past it: by three quarters of the
/// way up and by a hundredth of the way down. The first measurement is taken as it is.
pub proof fn law_estimate_follows_measurement(l: LinkState, elapsed: Duration)
    ensures
        ({
            let old = l.ping.roundtrip.nanos as int;
            let new = roundtrip_estimate(l.ping, elapsed).nanos as int;
            let first = l.ping.roundtrip_estimates == Some(0usize);
            &&& (first ==> new == elapsed.nanos)
            &&& (!first && elapsed.nanos >= old ==> old <= new <= elapsed.nanos && 4 * new <= old + 3 * elapsed.nanos
                < 4 * new + 4)
            &&& (!first && elapsed.nanos <= old ==> elapsed.nanos <= new <= old && (elapsed.nanos < old ==> 100 * new
                <= 99 * old + elapsed.nanos < 100 * new + 100))
        }),
{
}

/// Each acknowledgement counts as an estimate of the roundtrip time and frees what was acknowledged. The limit of
/// unacknowledged data may be raised again once something has arrived that was sent after it was raised.
pub proof fn law_acknowledgement_frees_data(l: LinkState, size: usize, elapsed: Duration, seq: SeqNum)
    requires
        size <= l.unacked.txed_unacked_data,
    ensures
        ({
            let t = l.packet_confirmed(size, elapsed);
            &&& t.unacked.txed_unacked_data + size == l.unacked.txed_unacked_data
            &&& t.unacked.txed_unacked_data_limit == l.unacked.txed_unacked_data_limit
            &&& (l.ping.roundtrip_estimates is None ==> t.ping.roundtrip_estimates is None)
            &&& (l.ping.roundtrip_estimates matches Some(n) ==> n == usize::MAX || t.ping.roundtrip_estimates == Some(
                (n + 1) as usize,
            ))
            &&& t.ping.roundtrip == roundtrip_estimate(l.ping, elapsed)
            &&& t.status == l.status
        }),
        ({
            let t = l.increase_unblocked(seq);
            match l.unacked.txed_unacked_data_limit_increased {
                Some(raised) => if seq.precedes(raised) {
                    t.unacked == l.unacked && t.ping.roundtrip_estimates == Some(0usize)
                } else {
                    t.unacked.txed_unacked_data_limit_increased is None && t.ping == l.ping
                },
                None => t == l,
            }
        }),
{
}

/// What the remote endpoint says of its receiver takes effect: data that it has consumed makes room, but more than was
/// sent is an error; a closed receiver is reported to the user; after a dropped one nothing more is accepted for
/// sending.
pub proof fn law_reports_of_remote_take_effect(s: TaskState, consumed: u32)
    ensures
        match s.effect(ReliableMsg::Consumed(consumed)) {
            Ok(t) => t.tx.unconsumed + consumed == s.tx.unconsumed && t.rx == s.rx && t.write_rx == s.write_rx,
            Err(err) => err == ProtocolError::ConsumedUnderflow && consumed > s.tx.unconsumed,
        },
        s.effect(ReliableMsg::ReceiveClose) matches Ok(t) && t.errors.write_error == SendError::Closed
            && t.chan.write_closed && t.write_rx == s.write_rx && t.errors.read_error == s.errors.read_error
            && t.rx.force_ack,
        s.effect(ReliableMsg::ReceiveFinish) matches Ok(t) && t.errors.write_error == SendError::Dropped
            && t.write_rx is None && t.chan.send_finish_sent && t.errors.read_error == s.errors.read_error
            && t.rx.force_ack,
{
}

/// Data is refused exactly if it does not fit into the receive buffer.
pub proof fn law_overflow_is_refused(s: TaskState, data: Bytes)
    ensures
        s.effect(ReliableMsg::Data(data)) == if s.rx.size + content(data).len() > s.info.cfg.recv_buffer {
            Err::<TaskState, ProtocolError>(ProtocolError::RecvBufferOverflow)
        } else {
            Ok(s)
        },
{
}

/// The remote endpoint is told once that the receiver has been closed, then that it has been dropped and that there is
/// no more data, each of them only if it is so.
pub proof fn law_closing_is_told_once(s: TaskState)
    ensures
        match s.closing_msg() {
            Some(ReliableMsg::ReceiveClose) => !s.chan.read_closed_open && !s.chan.receive_close_sent,
            Some(ReliableMsg::ReceiveFinish) => !s.chan.read_open && !s.chan.receive_finish_sent,
            Some(ReliableMsg::SendFinish) => s.write_rx is None && !s.chan.send_finish_sent,
            Some(_) => false,
            None => {
                &&& s.chan.read_closed_open || s.chan.receive_close_sent
                &&& s.chan.read_open || s.chan.receive_finish_sent
                &&& s.write_rx is Some || s.chan.send_finish_sent
            },
        },
{
}

/// What the owner of the transmit sink has to do: nothing unless it is waited for, hand over what is waiting first,
/// and flush it once nothing is.
pub proof fn law_sink_is_served(l: LinkState)
    ensures
        l.tx_step() == TxStep::Wait <==> l.tx.tx_polling is None,
        l.tx_step() == TxStep::Flush <==> l.tx.tx_polling is Some && l.flush.tx_flushing && l.tx.tx_data is None,
{
}

/// A link is being flushed from when that is started until it has succeeded. Then nothing on it counts as unflushed.
pub proof fn law_flushing_of_link(l: LinkState, now: Instant)
    ensures
        ({
            let t = l.flushing(now);
            &&& t.flush.tx_flushing
            &&& t.flush.txed_unflushed == 0
            &&& t.flush.txed_acks_unflushed == 0
            &&& t.flush.txed_first_unflushed_ack is None
            &&& t.tx.tx_polling == Some(now)
            &&& t.status == l.status
            &&& !t.flush_ended(true).flush.tx_flushing
            &&& t.flush_ended(true).flush.txed_first_unflushed_data is None
            &&& !t.flush_ended(true).tx.tx_failed || l.tx.tx_failed
            &&& t.flush_ended(false).tx.tx_failed
        }),
{
}

/// A termination message is sent once the link is ready or has failed, and its reply is waited for if it is expected
/// and the remote endpoint has not terminated by itself.
pub proof fn law_termination_of_link(t: LinkTermination, event: LinkIntEvent)
    ensures
        ({
            let (n, send) = t.next(event);
            let terminate = event matches LinkIntEvent::Rx { msg, .. } && msg is Terminate;
            &&& send <==> t.phase is WaitReady && (event is TxReady || event is TxError)
            &&& (send ==> (n.phase is WaitReply <==> t.expect_reply) && (n.phase is Done <==> !t.expect_reply))
            &&& (t.phase is WaitReady && terminate ==> n.phase is WaitReady && !n.expect_reply)
            &&& (t.phase is WaitReply ==> (n.phase is Done <==> terminate || event is RxError))
            &&& (t.phase is Done ==> n.phase is Done)
        }),
{
}

/// The shortest interval is one of them, and none is shorter.
pub proof fn law_shortest_interval(durations: Seq<Duration>)
    ensures
        match shortest(durations) {
            Some(d) => {
                &&& exists|k: int| 0 <= k < durations.len() && #[trigger] durations[k] == d
                &&& forall|k: int| 0 <= k < durations.len() ==> d.nanos <= (#[trigger] durations[k]).nanos
            },
            None => durations.len() == 0,
        },
    decreases durations.len(),
{
    if durations.len() > 0 {
        let front = durations.drop_last();
        law_shortest_interval(front);
        let last = durations.len() - 1;
        assert(durations[last] == durations.last());
        if let Some(d) = shortest(front) {
            let k = choose|k: int| 0 <= k < front.len() && #[trigger] front[k] == d;
            assert(durations[k] == d);
            assert forall|k: int| 0 <= k < durations.len() implies shortest(durations)->0.nanos <= (
            #[trigger] durations[k]).nanos by {
                if k < last {
                    assert(front[k] == durations[k]);
                }
            }
        }
    }
}

} // verus!
