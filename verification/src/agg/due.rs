//! When something is due on a link.

use crate::agg::events::TaskEvent;
use crate::agg::laws::law_earliest_timeout;
use crate::agg::link_int::{Deadline, FlushReason, LinkIntEvent, LinkState};
use crate::agg::round::RoundTimeouts;
use crate::agg::state::TaskState;
use crate::agg::timeouts::LinkTimeout;
use crate::agg::tx::{lemma_first_sent, SentReliableStatus};
use crate::control::NotWorkingReason;
use crate::time::{duration_between, Instant};
use vstd::prelude::*;

verus! {

/// The configuration given for a link overrides that of the connection as a whole; without one the link
/// has that of the connection.
pub proof fn law_link_cfg_overrides(l: LinkState)
    ensures
        l.info.link_cfg is Some ==> Some(l.eff_cfg()) == l.info.link_cfg,
        l.info.link_cfg is None ==> l.eff_cfg() == l.info.cfg.link,
{
}

/// The time that has passed between two points in time, added to the first one, gives the second one. No time
/// has passed, if the second one is not after the first one.
pub proof fn law_elapsed_time(earlier: Instant, later: Instant)
    ensures
        earlier.nanos <= later.nanos ==> earlier.nanos + duration_between(earlier, later).nanos == later.nanos,
        later.nanos <= earlier.nanos ==> duration_between(earlier, later).nanos == 0,
        earlier.nanos <= later.nanos ==> earlier.plus(duration_between(earlier, later)) == later.nanos,
{
}

/// A link is neither pinged while a ping is outstanding or already requested nor while it is unconfirmed.
pub proof fn law_one_ping_at_a_time(l: LinkState, now: Instant)
    requires
        l.ping.current_ping_sent is Some || l.ping.send_ping || l.status.unconfirmed is Some,
    ensures
        l.next_ping(now) is None,
        l.timeout(LinkTimeout::SendPing, now) is None,
{
}

/// A confirmed link that is pinged when idle is due for a ping once both its last message and its last ping
/// lie the configured time in the past, and not before that. What has not happened yet puts it off only until
/// now. Hence no such link stays idle for that time without a ping being due.
pub proof fn law_idle_link_is_pinged(l: LinkState, now: Instant)
    requires
        l.ping.current_ping_sent is None,
        !l.ping.send_ping,
        l.status.unconfirmed is None,
        l.eff_cfg().ping is WhenIdle,
    ensures
        ({
            let d = l.eff_cfg().ping->WhenIdle_0.nanos;
            let msg: int = match l.flush.tx_last_msg {
                Some(t) => t.nanos + d,
                None => now.nanos as int,
            };
            let ping: int = match l.ping.last_ping {
                Some(t) => t.nanos + d,
                None => now.nanos as int,
            };
            &&& l.next_ping(now) matches Some(due)
            &&& due >= msg
            &&& due >= ping
            &&& due == msg || due == ping
            &&& l.timeout(LinkTimeout::SendPing, now) == Some(due)
        }),
        ({
            let d = l.eff_cfg().ping->WhenIdle_0.nanos;
            &&& (l.flush.tx_last_msg matches Some(t) ==> t.nanos + d <= now.nanos) && (l.ping.last_ping matches Some(
                t,
            ) ==> t.nanos + d <= now.nanos) <==> l.next_ping(now)->0 <= now.nanos
        }),
{
}

/// A confirmed link that is pinged periodically is due for a ping at once, if it has never been pinged, and
/// otherwise when the interval has passed since its last ping, whatever has been sent over it.
pub proof fn law_link_is_pinged_periodically(l: LinkState, now: Instant)
    requires
        l.ping.current_ping_sent is None,
        !l.ping.send_ping,
        l.status.unconfirmed is None,
        l.eff_cfg().ping is Periodic,
    ensures
        ({
            let interval = l.eff_cfg().ping->Periodic_0.nanos;
            &&& l.next_ping(now) matches Some(due)
            &&& (l.ping.last_ping matches Some(last) ==> due - last.nanos == interval)
            &&& (l.ping.last_ping is None ==> due == now.nanos)
            &&& l.timeout(LinkTimeout::SendPing, now) == Some(due)
        }),
{
}

/// A link that is pinged only when a transmission times out never becomes due for a ping by itself.
pub proof fn law_no_ping_without_timeout(l: LinkState, now: Instant)
    requires
        l.eff_cfg().ping is WhenTimedOut,
    ensures
        l.next_ping(now) is None,
        l.timeout(LinkTimeout::SendPing, now) is None,
{
}

/// A link that cannot send for its ping timeout must be removed: as long as its transmit sink is waited for, and
/// only then, there is a send timeout, which occurs the ping timeout after the wait has started.
pub proof fn law_hanging_link_times_out(l: LinkState, now: Instant)
    ensures
        l.tx.tx_polling matches Some(since) ==> {
            &&& l.timeout(LinkTimeout::Send, now) matches Some(due)
            &&& due - since.nanos == l.eff_cfg().ping_timeout.nanos
        },
        l.tx.tx_polling is None ==> l.timeout(LinkTimeout::Send, now) is None,
{
}

/// A link that does not answer a ping within its ping timeout must be removed: as long as a ping is outstanding,
/// and only then, there is a ping timeout, which occurs the ping timeout after the ping was sent.
pub proof fn law_unanswered_ping_times_out(l: LinkState, now: Instant)
    ensures
        l.ping.current_ping_sent matches Some(sent) ==> {
            &&& l.timeout(LinkTimeout::Ping, now) matches Some(due)
            &&& due - sent.nanos == l.eff_cfg().ping_timeout.nanos
        },
        l.ping.current_ping_sent is None ==> l.timeout(LinkTimeout::Ping, now) is None,
{
}

/// A link that is not confirmed for too long must be removed, unless it merely is too slow or failed its test, after
/// which it is tested again.
pub proof fn law_unconfirmed_link_times_out(l: LinkState, now: Instant)
    ensures
        match l.status.unconfirmed {
            Some((since, NotWorkingReason::New))
            | Some((since, NotWorkingReason::AckTimeout))
            | Some((since, NotWorkingReason::Disconnecting)) => {
                &&& l.timeout(LinkTimeout::Unconfirmed, now) matches Some(due)
                &&& due - since.nanos == l.eff_cfg().non_working_timeout.nanos
            },
            _ => l.timeout(LinkTimeout::Unconfirmed, now) is None,
        },
{
}

/// A required deadline is not later than any of those required before, and it is one of them.
pub proof fn law_earliest_deadline_counts(d: Deadline, reason: FlushReason, time: u128)
    ensures
        d.required(reason, time).due matches Some((due, why)) && {
            &&& due <= time
            &&& (d.due matches Some((existing, _)) ==> due <= existing)
            &&& ((due, why) == (time, reason) || d.due == Some((due, why)))
        },
{
}

/// Unflushed data is flushed no later than the flush delay after the link has become idle and no later than the
/// flush interval after it was sent. Unflushed acknowledgements are flushed no later than their interval after the
/// first one was sent. A link over which nothing is unflushed is not flushed, and neither is data that is
/// already being flushed.
pub proof fn law_flushed_in_time(l: LinkState, now: Instant)
    ensures
        ({
            let data = l.flush.txed_first_unflushed_data is Some && !l.flush.tx_flushing;
            let due = l.timeout(LinkTimeout::Flush, now);
            let cfg = l.eff_cfg();
            &&& (data && l.flush.tx_idle_since is Some ==> due is Some && due->0 <= l.flush.tx_idle_since->0.nanos
                + cfg.flush_delay.nanos)
            &&& (data && cfg.flush_interval is Some ==> due is Some && due->0
                <= l.flush.txed_first_unflushed_data->0.nanos + cfg.flush_interval->0.nanos)
            &&& (l.flush.txed_first_unflushed_ack is Some && cfg.ack_flush_interval is Some ==> due is Some && due->0
                <= l.flush.txed_first_unflushed_ack->0.nanos + cfg.ack_flush_interval->0.nanos)
            &&& (due matches Some(t) ==> {
                ||| data && l.flush.tx_idle_since is Some && t == l.flush.tx_idle_since->0.nanos
                    + cfg.flush_delay.nanos
                ||| data && cfg.flush_interval is Some && t == l.flush.txed_first_unflushed_data->0.nanos
                    + cfg.flush_interval->0.nanos
                ||| l.flush.txed_first_unflushed_ack is Some && cfg.ack_flush_interval is Some && t
                    == l.flush.txed_first_unflushed_ack->0.nanos + cfg.ack_flush_interval->0.nanos
            })
        }),
{
}

/// The acknowledgement timeout lies within its configured range. Within that range it is the roundtrip time, times
/// the configured factor, times the factor for resent packets, if the packet is one, and times the factor for
/// unreliable estimates, unless the roundtrip time has been measured often enough.
pub proof fn law_ack_timeout_follows_roundtrip(l: LinkState, resent: bool)
    requires
        l.wf(),
    ensures
        ({
            let cfg = l.eff_cfg();
            let reliable = l.ping.roundtrip_estimates matches Some(n) && n >= 10;
            let factor = cfg.ack_timeout_roundtrip_factor * (if resent {
                cfg.ack_timeout_resent_factor as int
            } else {
                1
            }) * (if reliable {
                1
            } else {
                cfg.ack_timeout_unreliable_factor as int
            });
            let timeout = l.ack_timeout(resent).nanos;
            &&& cfg.ack_timeout_min.nanos <= timeout <= cfg.ack_timeout_max.nanos
            &&& timeout == l.ping.roundtrip.nanos * factor || (timeout == cfg.ack_timeout_min.nanos && timeout
                > l.ping.roundtrip.nanos * factor) || (timeout == cfg.ack_timeout_max.nanos && timeout
                < l.ping.roundtrip.nanos * factor)
        }),
{
}

/// A packet that has been resent is waited for at least as long as one that has not.
pub proof fn law_resent_packet_waits_longer(l: LinkState)
    requires
        l.wf(),
    ensures
        l.ack_timeout(false).nanos <= l.ack_timeout(true).nanos,
{
    let cfg = l.eff_cfg();
    let rt = l.ping.roundtrip.nanos as int;
    let a = l.ack_timeout_factor(false);
    let b = l.ack_timeout_factor(true);
    let f = cfg.ack_timeout_roundtrip_factor as int;
    let r = cfg.ack_timeout_resent_factor as int;
    let u: int = if l.has_reliable_roundtrip() {
        1
    } else {
        cfg.ack_timeout_unreliable_factor as int
    };
    assert(f * 1 * u <= f * r * u) by (nonlinear_arith)
        requires
            f >= 0,
            u >= 0,
            r >= 1,
    ;
    assert(rt * a <= rt * b) by (nonlinear_arith)
        requires
            0 <= rt,
            a <= b,
    ;
}

/// The packet whose acknowledgement is waited for is the oldest one that has been sent and neither been acknowledged
/// nor queued for resending. Its time starts when it was flushed or, as long as it was not, when it was sent.
pub proof fn law_oldest_packet_times_out(s: TaskState)
    ensures
        match s.confirm_timeout() {
            Some((id, due, flushed)) => exists|k: int|
                #![trigger s.tx.packets[k]]
                {
                    &&& 0 <= k < s.tx.packets.len()
                    &&& forall|j: int| 0 <= j < k ==> !((#[trigger] s.tx.packets[j]).status is Sent)
                    &&& s.tx.packets[k].status matches SentReliableStatus::Sent {
                        sent,
                        flushed: flushed_at,
                        link_id,
                        resent,
                        ..
                    }
                    &&& link_id == id
                    &&& flushed == (flushed_at is Some)
                    &&& due == (match flushed_at {
                        Some(at) => at.nanos,
                        None => sent.nanos,
                    }) + s.link(id as int).ack_timeout(resent).nanos
                },
            None => forall|k: int| 0 <= k < s.tx.packets.len() ==> !((#[trigger] s.tx.packets[k]).status is Sent),
        },
{
    lemma_first_sent(s.tx.packets);
    let k = crate::agg::tx::first_sent(s.tx.packets);
    if k < s.tx.packets.len() {
        assert(s.tx.packets[k].status is Sent);
    }
}

/// For each kind of timeout the earliest one is waited for: no link has an earlier one.
pub proof fn law_timeouts_of_all_links(s: TaskState, now: Instant, i: int)
    requires
        s.links.len() <= usize::MAX,
        s.has(i),
    ensures
        ({
            let t = s.link_timeouts(now);
            let l = s.link(i);
            &&& (l.next_ping(now) matches Some(due) ==> t.ping matches Some((_, first)) && first <= due)
            &&& (l.ping.current_ping_sent matches Some(sent) ==> t.pong matches Some((_, first)) && first <= sent.nanos
                + l.eff_cfg().ping_timeout.nanos)
            &&& (l.tx.tx_polling matches Some(since) ==> t.send matches Some((_, first)) && first <= since.nanos
                + l.eff_cfg().ping_timeout.nanos)
            &&& (l.timeout(LinkTimeout::Unconfirmed, now) matches Some(due) ==> t.unconfirmed matches Some((_, first)) && first <= due)
        }),
{
    law_earliest_timeout(s.links, LinkTimeout::SendPing, now);
    law_earliest_timeout(s.links, LinkTimeout::Ping, now);
    law_earliest_timeout(s.links, LinkTimeout::Send, now);
    law_earliest_timeout(s.links, LinkTimeout::Unconfirmed, now);
    assert(s.links[i] is Some);
}

/// What is waited for is there: each timeout is that of a link that is present, and there is one for missing links
/// exactly while none is working.
pub proof fn law_timeouts_are_those_of_links(s: TaskState, now: Instant)
    requires
        s.links.len() <= usize::MAX,
    ensures
        ({
            let t = s.link_timeouts(now);
            &&& (t.ping matches Some((id, due)) ==> s.has(id as int) && s.link(id as int).next_ping(now) == Some(due))
            &&& (t.pong matches Some((id, due)) ==> s.has(id as int) && (s.link(
                id as int,
            ).ping.current_ping_sent matches Some(sent) && due == sent.nanos + s.link(
                id as int,
            ).eff_cfg().ping_timeout.nanos))
            &&& (t.send matches Some((id, due)) ==> s.has(id as int) && (s.link(id as int).tx.tx_polling matches Some(
                since,
            ) && due == since.nanos + s.link(id as int).eff_cfg().ping_timeout.nanos))
            &&& (t.unconfirmed matches Some((id, due)) ==> s.has(id as int) && s.link(id as int).timeout(
                LinkTimeout::Unconfirmed,
                now,
            ) == Some(due))
            &&& t.confirm == s.links_tested(now).confirm_timeout()
            &&& (s.times.links_not_working_since matches Some(since) ==> t.no_links matches Some(due) && due
                == since.nanos + s.info.cfg.no_link_timeout.nanos)
            &&& (s.times.links_not_working_since is None ==> t.no_links is None)
        }),
{
    law_earliest_timeout(s.links, LinkTimeout::SendPing, now);
    law_earliest_timeout(s.links, LinkTimeout::Ping, now);
    law_earliest_timeout(s.links, LinkTimeout::Send, now);
    law_earliest_timeout(s.links, LinkTimeout::Unconfirmed, now);
}

/// When the first of the timeouts occurs, it leads to what it stands for: a link is pinged when its ping is due, a
/// link whose reply is overdue, that hangs or that is unconfirmed for too long is reported as such, a packet whose
/// acknowledgement is overdue is reported once it has been flushed, and otherwise its link is flushed first.
pub proof fn law_timeout_leads_to_its_event(timeouts: RoundTimeouts, flush: Option<(usize, u128)>)
    ensures
        timeouts.first_event(flush) matches Some((time, event)) ==> match event {
            TaskEvent::PingLink(id) => timeouts.ping == Some((id, time)),
            TaskEvent::LinkPingTimeout(id) => timeouts.pong == Some((id, time)),
            TaskEvent::LinkUnconfirmedTimeout(id) => timeouts.unconfirmed == Some((id, time)),
            TaskEvent::LinkSendTimeout(id) => timeouts.send == Some((id, time)),
            TaskEvent::LinkTesting => timeouts.testing == Some(time),
            TaskEvent::NoLinksTimeout => timeouts.no_links == Some(time),
            TaskEvent::ConfirmTimedOut(id) => timeouts.confirm == Some((id, time, true)),
            TaskEvent::LinkEvent { id, event: LinkIntEvent::FlushRequired } => {
                ||| timeouts.confirm == Some((id, time, false))
                ||| flush == Some((id, time))
            },
            _ => false,
        },
{
}

} // verus!
