//! What happens before waiting for the next event of a connection.

use crate::agg::due::law_timeouts_of_all_links;
use crate::agg::limits::{law_raised_limit_within_maximum, lemma_adjust_limits_wf, lemma_slow_ids, lemma_unconfirm_all_wf};
use crate::agg::link_int::{LinkState, LinkTest};
use crate::agg::pace::law_adjusting_changes_limits_only;
use crate::agg::quality::{above_maximum, above_spread, lemma_slow_ids_exact, lemma_unconfirm_all_at};
use crate::agg::ready::SendFlags;
use crate::agg::round::{last_sendable, WriteStep};
use crate::agg::send::lemma_unconfirm_wf;
use crate::agg::state::{lemma_frame_wf, lemma_wf_buffers, lemma_wf_link, SendReq, TaskState};
use crate::agg::termination::Termination;
use crate::agg::testing::lemma_tested_wf;
use crate::agg::tx::{first_queued, lemma_seq_avail, queued_seqs, SentReliable, SentReliableStatus};
use crate::buf::content;
use crate::control::NotWorkingReason;
use crate::id::LinkId;
use crate::seq::SeqNum;
use crate::time::Instant;
use vstd::prelude::*;

verus! {

/// A link after the limits have been checked and adjusted. Only a slow link is unconfirmed by that.
proof fn lemma_limited_at(s: TaskState, now: Instant, i: usize)
    requires
        s.wf(),
        s.links.len() <= usize::MAX,
        s.has(i as int),
    ensures
        ({
            let t = s.limited(now);
            let slow = above_maximum(s, i as int) || above_spread(s, i as int);
            let l = s.link(i as int);
            let m = t.link(i as int);
            &&& t.wf()
            &&& t.has(i as int)
            &&& t.links.len() == s.links.len()
            &&& m.info == l.info
            &&& m.ping.current_ping_sent == l.ping.current_ping_sent
            &&& m.ping.last_ping == l.ping.last_ping
            &&& m.ping.send_ping == l.ping.send_ping
            &&& (l.status.test == LinkTest::Inactive ==> m.status.test == LinkTest::Inactive)
            &&& (slow ==> m.status.unconfirmed == Some((now, NotWorkingReason::MaxPingExceeded)) && m.tx.tx_polling
                == Some(now))
            &&& (!slow ==> m.status.unconfirmed == l.status.unconfirmed && m.tx == l.tx && m.flush == l.flush)
        }),
{
    reveal(TaskState::limited);
    lemma_slow_ids(s);
    lemma_slow_ids_exact(s, i as int);
    lemma_unconfirm_all_wf(s, s.slow_ids(), NotWorkingReason::MaxPingExceeded, now);
    lemma_unconfirm_all_at(s, s.slow_ids(), NotWorkingReason::MaxPingExceeded, now, i);
    let checked = s.check_limits(now);
    lemma_adjust_limits_wf(checked, now);
    law_adjusting_changes_limits_only(checked, now, i as int);
    let adjusted = checked.adjust_limits(now);
    lemma_frame_wf(adjusted, adjusted.not_working_updated(now));
}

/// A link that waits for its transmit sink and is not being tested is left alone when the links are tested.
proof fn lemma_all_tested_at(s: TaskState, from: usize, to: int, now: Instant, i: usize)
    requires
        s.wf(),
        s.has(i as int),
    ensures
        s.all_tested(from, to, now).has(i as int),
        s.link(i as int).status.test == LinkTest::Inactive && s.link(i as int).tx.tx_polling is Some
            ==> s.all_tested(from, to, now).link(i as int) == s.link(i as int),
        s.link(i as int).status.unconfirmed is None ==> s.all_tested(from, to, now).link(i as int) == s.link(i as int),
    decreases to - from,
{
    if from < to && from < usize::MAX {
        lemma_tested_wf(s, from, now);
        lemma_wf_link(s, i as int);
        lemma_all_tested_at(s.tested(from, now), (from + 1) as usize, to, now, i);
    }
}

/// A round of a connection that goes on keeps watching all its links. A link that is too slow is unconfirmed and one
/// that is confirmed and not too slow stays so. For each link something is waited for that is due no later than its
/// ping, the reply to its ping, the end of a wait for its transmit sink and the end of the time in which it must be
/// confirmed.
pub proof fn law_round_watches_all_links(s: TaskState, now: Instant, i: usize)
    requires
        s.wf(),
        s.links.len() <= usize::MAX,
        s.has(i as int),
        s.begin(now).1 is Ok,
    ensures
        ({
            let t = s.begin(now).0;
            let timeouts = s.begin(now).1->Ok_0.timeouts;
            let l = s.link(i as int);
            let slow = above_maximum(s, i as int) || above_spread(s, i as int);
            &&& t.has(i as int)
            &&& (slow ==> t.link(i as int).status.unconfirmed == Some((now, NotWorkingReason::MaxPingExceeded)))
            &&& (!slow && l.status.unconfirmed is None ==> t.link(i as int).status.unconfirmed is None)
            &&& (l.ping.current_ping_sent matches Some(sent) ==> (timeouts.pong matches Some((_, first)) && first
                <= sent.nanos + l.eff_cfg().ping_timeout.nanos))
            &&& (l.tx.tx_polling matches Some(since) ==> (timeouts.send matches Some((_, first)) && (first <= since.nanos
                + l.eff_cfg().ping_timeout.nanos || slow && first <= now.nanos + l.eff_cfg().ping_timeout.nanos)))
            &&& (!slow ==> (l.next_ping(now) matches Some(due) ==> (timeouts.ping matches Some((_, first))
                && first <= due)))
            &&& (l.status.unconfirmed matches Some((since, reason)) ==> (reason != NotWorkingReason::MaxPingExceeded && reason
                != NotWorkingReason::TestFailed ==> (
            timeouts.unconfirmed matches Some((_, first)) && first <= since.nanos
                + l.eff_cfg().non_working_timeout.nanos)))
        }),
{
    let noted = s.closing_noted(now);
    lemma_frame_wf(s, noted);
    let notified = noted.notified(now);
    lemma_frame_wf(noted, notified);
    lemma_limited_at(notified, now, i);
    let limited = notified.limited(now);
    law_timeouts_of_all_links(limited, now, i as int);
    reveal(TaskState::links_tested);
    lemma_all_tested_at(limited, 0, limited.links.len() as int, now, i);
    assert(notified.links == s.links && notified.info == s.info);
    lemma_same_links_slow(s, notified, i as int);
    lemma_slow_is_confirmed(s, i as int);
    lemma_wf_link(s, i as int);
}

/// While no link is confirmed, the end of the connection is waited for, which comes the configured time after it was
/// first noticed. It is not waited for while a link is confirmed that is not too slow.
pub proof fn law_round_watches_for_missing_links(s: TaskState, now: Instant)
    requires
        s.wf(),
        s.links.len() <= usize::MAX,
        s.begin(now).1 is Ok,
    ensures
        ({
            let timeouts = s.begin(now).1->Ok_0.timeouts;
            let since = match s.times.links_not_working_since {
                Some(since) => since,
                None => now,
            };
            &&& ((forall|i: int| #![trigger s.has(i)] s.has(i) ==> s.link(i).status.unconfirmed is Some) ==> (
            timeouts.no_links matches Some(due) && due == since.nanos + s.info.cfg.no_link_timeout.nanos))
            &&& ((exists|i: int|
                #![trigger s.has(i)]
                s.has(i) && s.link(i).status.unconfirmed is None && !above_maximum(s, i) && !above_spread(s, i))
                ==> timeouts.no_links is None)
        }),
{
    let noted = s.closing_noted(now);
    lemma_frame_wf(s, noted);
    let notified = noted.notified(now);
    lemma_frame_wf(noted, notified);
    let limited = notified.limited(now);
    assert(notified.links == s.links);
    lemma_not_working(notified, now);
    assert forall|i: int| #![trigger s.has(i)] above_spread(s, i) == above_spread(notified, i) && above_maximum(s, i)
        == above_maximum(notified, i) by {
        lemma_same_links_slow(s, notified, i);
    }
    if exists|i: int|
        #![trigger s.has(i)]
        s.has(i) && s.link(i).status.unconfirmed is None && !above_maximum(s, i) && !above_spread(s, i) {
        let i = choose|i: int|
            #![trigger s.has(i)]
            s.has(i) && s.link(i).status.unconfirmed is None && !above_maximum(s, i) && !above_spread(s, i);
        assert(notified.has(i));
    }
    if forall|i: int| #![trigger s.has(i)] s.has(i) ==> s.link(i).status.unconfirmed is Some {
        assert forall|i: int| #![trigger notified.has(i)] notified.has(i) implies notified.link(
            i,
        ).status.unconfirmed is Some by {
            assert(s.has(i));
        }
    }
}

/// Only a confirmed link is too slow.
proof fn lemma_slow_is_confirmed(s: TaskState, i: int)
    ensures
        above_maximum(s, i) || above_spread(s, i) ==> s.has(i) && s.link(i).status.unconfirmed is None,
{
    reveal(above_spread);
    reveal(above_maximum);
}

/// Which links are too slow depends on the links and the configuration only.
proof fn lemma_same_links_slow(s: TaskState, t: TaskState, i: int)
    requires
        s.links == t.links,
        s.info == t.info,
    ensures
        above_spread(s, i) == above_spread(t, i),
        above_maximum(s, i) == above_maximum(t, i),
{
    reveal(above_spread);
    reveal(above_maximum);
    assert forall|j: int| #![trigger s.has(j)] s.has(j) == t.has(j) by {}
    assert forall|j: int| #![trigger t.has(j)] s.has(j) == t.has(j) by {}
}

/// Since when no link is working, after the limits have been checked.
proof fn lemma_not_working(s: TaskState, now: Instant)
    requires
        s.wf(),
        s.links.len() <= usize::MAX,
    ensures
        ({
            let t = s.limited(now);
            let since = match s.times.links_not_working_since {
                Some(since) => since,
                None => now,
            };
            &&& t.info == s.info
            &&& ((forall|i: int| #![trigger s.has(i)] s.has(i) ==> s.link(i).status.unconfirmed is Some)
                ==> t.times.links_not_working_since == Some(since))
            &&& ((exists|i: int|
                #![trigger s.has(i)]
                s.has(i) && s.link(i).status.unconfirmed is None && !above_maximum(s, i) && !above_spread(s, i))
                ==> t.times.links_not_working_since is None)
        }),
{
    reveal(TaskState::limited);
    lemma_slow_ids(s);
    lemma_unconfirm_all_wf(s, s.slow_ids(), NotWorkingReason::MaxPingExceeded, now);
    let checked = s.check_limits(now);
    let adjusted = checked.adjust_limits(now);
    lemma_adjust_limits_wf(checked, now);
    lemma_unconfirm_all_rest(s, s.slow_ids(), NotWorkingReason::MaxPingExceeded, now);
    lemma_adjust_rest(checked, now);
    if exists|i: int|
        #![trigger s.has(i)]
        s.has(i) && s.link(i).status.unconfirmed is None && !above_maximum(s, i) && !above_spread(s, i) {
        let i = choose|i: int|
            #![trigger s.has(i)]
            s.has(i) && s.link(i).status.unconfirmed is None && !above_maximum(s, i) && !above_spread(s, i);
        lemma_limited_at(s, now, i as usize);
        assert(adjusted.has(i)) by {
            assert(s.limited(now).has(i));
        }
        assert(adjusted.any_confirmed());
    }
    if forall|i: int| #![trigger s.has(i)] s.has(i) ==> s.link(i).status.unconfirmed is Some {
        assert forall|i: int| #![trigger adjusted.has(i)] adjusted.has(i) implies adjusted.link(
            i,
        ).status.unconfirmed is Some by {
            law_raised_limit_within_maximum(checked, now, i);
            assert(checked.has(i));
            assert(s.has(i));
            lemma_limited_at(s, now, i as usize);
        }
    }
}

/// Unconfirming links keeps all links and leaves the times and the configuration alone.
proof fn lemma_unconfirm_all_rest(s: TaskState, ids: Seq<usize>, reason: NotWorkingReason, now: Instant)
    requires
        s.wf(),
        forall|k: int| 0 <= k < ids.len() ==> s.has(#[trigger] ids[k] as int),
    ensures
        ({
            let t = s.unconfirm_all(ids, reason, now);
            &&& t.times == s.times
            &&& t.info == s.info
            &&& t.links.len() == s.links.len()
            &&& forall|i: int| #![trigger t.has(i)] t.has(i) == s.has(i)
        }),
    decreases ids.len(),
{
    if ids.len() > 0 {
        let u = s.unconfirm(ids[0], reason, now);
        let rest = ids.drop_first();
        assert(s.has(ids[0] as int));
        lemma_unconfirm_wf(s, ids[0], reason, now);
        assert forall|k: int| 0 <= k < rest.len() implies u.has(#[trigger] rest[k] as int) by {
            assert(rest[k] == ids[k + 1]);
            assert(s.has(ids[k + 1] as int));
        }
        lemma_unconfirm_all_rest(u, rest, reason, now);
    }
}

/// Adjusting limits leaves the configuration and since when no link is working alone.
proof fn lemma_adjust_rest(s: TaskState, now: Instant)
    ensures
        s.adjust_limits(now).info == s.info,
        s.adjust_limits(now).times.links_not_working_since == s.times.links_not_working_since,
{
    reveal(TaskState::adjust_limits);
    if let Some(remote) = s.remote_recv_buffer() {
        let a = s.overrun_handled(remote, now).overrun_rearmed(now);
        assert(a.info == s.info && a.times.links_not_working_since == s.times.links_not_working_since);
        let b = a.max_ping_limited();
        assert(b.info == a.info && b.times == a.times);
        let c = b.spread_limited();
        assert(c.info == b.info && c.times == b.times);
    }
}

/// A connection ends gracefully exactly once sender and receiver are closed and everything has been exchanged, no link
/// is left or closing takes too long. It ends for lack of links exactly if none is left and none can be added. It goes
/// on in all other cases.
pub proof fn law_connection_ends(s: TaskState, now: Instant)
    ensures
        ({
            let closed = !s.chan.read_open && s.write_rx is None;
            let since = match s.times.read_write_closed {
                Some(since) => since,
                None => now,
            };
            let timeout = s.info.cfg.termination_timeout.nanos;
            let linked = exists|i: int| #![trigger s.has(i)] s.has(i);
            let exchanged = s.tx.packets.len() == 0 && s.tx.unconsumed == 0 && s.rx.size == 0 && s.rx.consumed == 0
                && s.chan.send_finish_sent && s.chan.receive_finish_sent;
            let graceful = closed && (exchanged || !linked || now.nanos - since.nanos >= timeout || timeout == 0);
            let stranded = !graceful && !linked && !s.chan.link_rx_open;
            let outcome = s.begin(now).1;
            &&& graceful <==> (outcome matches Err(t) && t == Termination::Closed)
            &&& stranded <==> (outcome matches Err(t) && t == Termination::NoMoreLinks)
            &&& outcome is Ok <==> !graceful && !stranded
            &&& (closed && outcome is Err ==> s.begin(now).0.times.read_write_closed == Some(since))
        }),
{
}

/// The establishment of a connection is notified exactly when its first link is there, together with what the remote
/// endpoint told about itself. The connection counts as established from then on.
pub proof fn law_establishment_is_notified_once(s: TaskState, now: Instant)
    ensures
        ({
            let linked = exists|i: int| #![trigger s.has(i)] s.has(i);
            let t = s.notified(now);
            &&& (s.connected_notice() == if linked && s.times.connect_pending {
                s.info.remote_cfg
            } else {
                None
            })
            &&& (linked && s.times.connect_pending ==> t.times.established == Some(now))
            &&& (!(linked && s.times.connect_pending) ==> t.times.established == s.times.established)
            &&& (linked ==> !t.times.connect_pending)
            &&& (!linked ==> t.times.connect_pending == s.times.connect_pending)
            &&& (s.begin(now).1 matches Ok(round) ==> round.connected == s.connected_notice())
        }),
{
    let noted = s.closing_noted(now);
    assert(noted.links == s.links);
    if s.links_available() {
        let i = choose|i: int| #![trigger s.has(i)] s.has(i);
        assert(noted.has(i));
    }
    if noted.links_available() {
        let i = choose|i: int| #![trigger noted.has(i)] noted.has(i);
        assert(s.has(i));
    }
}

/// The space for sending is as large as possible, while what is unacknowledged fits into the local send buffer and
/// what is unconsumed fits into the receive buffer of the remote endpoint.
pub proof fn law_space_is_what_both_buffers_leave(s: TaskState)
    ensures
        ({
            let space = s.tx_space();
            &&& (s.info.remote_cfg is None ==> space == 0)
            &&& (s.info.remote_cfg matches Some(remote) ==> {
                &&& (space > 0 ==> s.tx.unacked + space <= s.info.cfg.send_buffer && s.tx.unconsumed + space
                    <= remote.recv_buffer)
                &&& (s.tx.unacked + space >= s.info.cfg.send_buffer || s.tx.unconsumed + space
                    >= remote.recv_buffer)
            })
        }),
{
}

/// The link that is chosen for sending is idle, may have more data on its way and is not the one to avoid. It is the
/// one that became idle last. None is chosen only if there is no such link.
pub proof fn law_last_idle_link_is_chosen(s: TaskState, idle: Seq<usize>, avoid: Option<LinkId>)
    ensures
        match last_sendable(s, idle, avoid) {
            Some(id) => exists|k: int|
                #![trigger idle[k]]
                {
                    &&& 0 <= k < idle.len()
                    &&& idle[k] == id
                    &&& may_take_data(s.link(id as int), avoid)
                    &&& forall|j: int| k < j < idle.len() ==> !may_take_data(s.link((#[trigger] idle[j]) as int), avoid)
                },
            None => forall|j: int|
                0 <= j < idle.len() ==> !may_take_data(s.link((#[trigger] idle[j]) as int), avoid),
        },
    decreases idle.len(),
{
    if idle.len() > 0 {
        let front = idle.drop_last();
        let last = idle.len() - 1;
        law_last_idle_link_is_chosen(s, front, avoid);
        assert(idle[last] == idle.last());
        let l = s.link(idle.last() as int);
        assert(may_take_data(l, avoid) == (l.is_sendable() && avoid != Some(l.info.link_id))) by {
            reveal(may_take_data);
        }
        if !may_take_data(s.link(idle.last() as int), avoid) {
            match last_sendable(s, front, avoid) {
                Some(id) => {
                    let k = choose|k: int|
                        #![trigger front[k]]
                        {
                            &&& 0 <= k < front.len()
                            &&& front[k] == id
                            &&& may_take_data(s.link(id as int), avoid)
                            &&& forall|j: int|
                                k < j < front.len() ==> !may_take_data(s.link((#[trigger] front[j]) as int), avoid)
                        };
                    assert(idle[k] == id);
                    assert forall|j: int| k < j < idle.len() implies !may_take_data(
                        s.link((#[trigger] idle[j]) as int),
                        avoid,
                    ) by {
                        if j < last {
                            assert(front[j] == idle[j]);
                        }
                    }
                },
                None => {
                    assert forall|j: int| 0 <= j < idle.len() implies !may_take_data(
                        s.link((#[trigger] idle[j]) as int),
                        avoid,
                    ) by {
                        if j < last {
                            assert(front[j] == idle[j]);
                        }
                    }
                },
            }
        }
    }
}

/// Whether a link has less unacknowledged data than its limit and is not the one to avoid.
#[verifier::opaque]
pub open spec fn may_take_data(l: LinkState, avoid: Option<LinkId>) -> bool {
    &&& l.unacked.txed_unacked_data < l.unacked.txed_unacked_data_limit
    &&& avoid != Some(l.info.link_id)
}

/// What may be sent in a round follows from the buffers: consumed data is reported once it exceeds a tenth of the
/// receive buffer or if that is forced, a new message needs a free sequence number, and lost packets are resent, but
/// not over the link over which the first one of them was lost.
pub proof fn law_what_may_be_sent(s: TaskState, was_resending: bool)
    requires
        s.wf(),
    ensures
        ({
            let flags = s.send_flags(was_resending);
            &&& flags.consume_ack_required == (s.rx.force_ack || s.rx.consumed > s.info.cfg.recv_buffer as int / 10)
            &&& flags.tx_seq_avail == (s.tx.packets.len() <= SeqNum::USABLE_INTERVAL)
            &&& flags.tx_space == s.tx_space()
            &&& flags.resending == (was_resending && s.tx.resend_queue.len() > 0)
            &&& flags.sendable == last_sendable(s, s.idle, None)
            &&& flags.resendable == last_sendable(s, s.idle, flags.non_resendable)
            &&& (s.tx.resend_queue.len() == 0 ==> flags.non_resendable is None)
            &&& forall|k: int|
                #![trigger s.tx.packets[k]]
                0 <= k < s.tx.packets.len() && s.tx.packets[k].status is ResendQueued && (forall|j: int|
                    0 <= j < k ==> !((#[trigger] s.tx.packets[j]).status is ResendQueued)) ==> (
                s.tx.packets[k].status matches SentReliableStatus::ResendQueued { sent_link, .. }
                    && flags.non_resendable == Some(sent_link))
        }),
{
    lemma_wf_buffers(s);
    lemma_seq_avail(s.tx);
    assert forall|k: int|
        #![trigger s.tx.packets[k]]
        0 <= k < s.tx.packets.len() && s.tx.packets[k].status is ResendQueued && (forall|j: int|
            0 <= j < k ==> !((#[trigger] s.tx.packets[j]).status is ResendQueued)) implies (
    s.tx.packets[k].status matches SentReliableStatus::ResendQueued { sent_link, .. } && s.tx.non_resendable() == Some(
        sent_link,
    )) by {
        lemma_first_queued_is(s.tx.packets, k);
        lemma_some_queued(s.tx.packets, k);
    }
}

/// The first packet that is queued for resending is the one before which there is none.
pub proof fn lemma_first_queued_is(packets: Seq<SentReliable>, k: int)
    requires
        0 <= k < packets.len(),
        packets[k].status is ResendQueued,
        forall|j: int| 0 <= j < k ==> !((#[trigger] packets[j]).status is ResendQueued),
    ensures
        first_queued(packets) == k,
    decreases packets.len(),
{
    if k > 0 {
        let rest = packets.drop_first();
        assert(rest[k - 1] == packets[k]);
        assert(!(packets[0].status is ResendQueued));
        assert forall|j: int| 0 <= j < k - 1 implies !((#[trigger] rest[j]).status is ResendQueued) by {
            assert(rest[j] == packets[j + 1]);
        }
        lemma_first_queued_is(rest, k - 1);
    }
}

/// If a packet is queued for resending, the queue is not empty.
proof fn lemma_some_queued(packets: Seq<SentReliable>, k: int)
    requires
        0 <= k < packets.len(),
        packets[k].status is ResendQueued,
    ensures
        queued_seqs(packets).len() > 0,
    decreases packets.len(),
{
    if k > 0 {
        assert(packets.drop_first()[k - 1] == packets[k]);
        lemma_some_queued(packets.drop_first(), k - 1);
    }
}

/// Consumed data that must be reported is reported first, over an idle link. Nothing else is taken from the user while
/// lost packets are resent or no sequence number is free. Otherwise a request to flush is fulfilled, data is sent if
/// it fits into the space and an idle link can take it, and a request is awaited if there is none.
pub proof fn law_what_the_sender_does(s: TaskState, flags: SendFlags)
    ensures
        ({
            let report = s.idle.len() > 0 && flags.consume_ack_required && flags.tx_seq_avail;
            let open = s.write_rx is Some && flags.tx_seq_avail && !flags.resending;
            let peeked = s.write_rx->0.peeked;
            let step = s.write_step(flags);
            &&& (report ==> step == WriteStep::SendConsumed)
            &&& (!report && !open ==> step == WriteStep::Wait)
            &&& (!report && open && peeked is None ==> step == WriteStep::Receive)
            &&& (!report && open && peeked == Some(SendReq::Flush) ==> step == WriteStep::Flush)
            &&& (!report && open ==> (peeked matches Some(SendReq::Send(data)) ==> step == if flags.sendable is Some
                && content(data).len() <= flags.tx_space {
                WriteStep::Send
            } else {
                WriteStep::Wait
            }))
        }),
{
}

/// A round in which the user waits for flushing to complete still waits for each link, unless it is unconfirmed.
pub proof fn law_round_waits_for_flushing(s: TaskState, now: Instant, id: usize)
    requires
        s.wf(),
        s.links.len() <= usize::MAX,
        s.begin(now).1 is Ok,
        s.unflushed.contains(id),
        s.has(id as int),
    ensures
        s.begin(now).0.times.flush_pending == s.times.flush_pending,
        s.begin(now).0.unflushed.contains(id) || s.begin(now).0.link(id as int).status.unconfirmed is Some,
{
    law_round_watches_all_links(s, now, id);
    let noted = s.closing_noted(now);
    lemma_frame_wf(s, noted);
    let notified = noted.notified(now);
    lemma_frame_wf(noted, notified);
    assert(!s.unflushed.is_empty());
    lemma_slow_ids(notified);
    lemma_slow_ids_exact(notified, id as int);
    lemma_same_links_slow(s, notified, id as int);
    lemma_unconfirm_all_unflushed(notified, notified.slow_ids(), NotWorkingReason::MaxPingExceeded, now, id);
    let checked = notified.check_limits(now);
    lemma_adjust_unflushed(checked, now);
    reveal(TaskState::limited);
    reveal(TaskState::links_tested);
    let limited = notified.limited(now);
    lemma_all_tested_unflushed(limited, 0, limited.links.len() as int, now);
}

/// Unconfirming links ends waiting for no others.
proof fn lemma_unconfirm_all_unflushed(
    s: TaskState,
    ids: Seq<usize>,
    reason: NotWorkingReason,
    now: Instant,
    id: usize,
)
    ensures
        !ids.contains(id) ==> s.unconfirm_all(ids, reason, now).unflushed.contains(id) == s.unflushed.contains(id),
        s.unconfirm_all(ids, reason, now).times == s.times,
    decreases ids.len(),
{
    if ids.len() > 0 {
        let rest = ids.drop_first();
        lemma_unconfirm_all_unflushed(s.unconfirm(ids[0], reason, now), rest, reason, now, id);
        if rest.contains(id) {
            let k = choose|k: int| 0 <= k < rest.len() && rest[k] == id;
            assert(ids[k + 1] == id);
        }
        assert(ids.contains(ids[0]));
    }
}

/// Adjusting limits does not concern flushing by user request.
proof fn lemma_adjust_unflushed(s: TaskState, now: Instant)
    ensures
        s.adjust_limits(now).unflushed == s.unflushed,
        s.adjust_limits(now).times.flush_pending == s.times.flush_pending,
{
    reveal(TaskState::adjust_limits);
    if let Some(remote) = s.remote_recv_buffer() {
        let a = s.overrun_handled(remote, now).overrun_rearmed(now);
        assert(a.unflushed == s.unflushed && a.times.flush_pending == s.times.flush_pending);
        let b = a.max_ping_limited();
        assert(b.unflushed == a.unflushed && b.times == a.times);
        let c = b.spread_limited();
        assert(c.unflushed == b.unflushed && c.times == b.times);
    }
}

/// Testing links does not concern flushing by user request.
proof fn lemma_all_tested_unflushed(s: TaskState, from: usize, to: int, now: Instant)
    ensures
        s.all_tested(from, to, now).unflushed == s.unflushed,
        s.all_tested(from, to, now).times == s.times,
    decreases to - from,
{
    if from < to && from < usize::MAX {
        lemma_all_tested_unflushed(s.tested(from, now), (from + 1) as usize, to, now);
    }
}

} // verus!
