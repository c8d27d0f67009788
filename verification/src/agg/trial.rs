//! How the testing of links decides whether they are used.

use crate::agg::link_int::{LinkState, LinkStatus, LinkTest};
use crate::agg::quality::in_use;
use crate::agg::send::ready_link;
use crate::agg::state::TaskState;
use crate::control::NotWorkingReason;
use crate::time::Instant;
use vstd::prelude::*;

verus! {

/// Whether nothing is outstanding on a link: its transmit sink is not waited for, no ping is unanswered and nothing
/// sent over it is unacknowledged.
pub open spec fn is_quiet(l: LinkState) -> bool {
    &&& l.tx.tx_polling is None
    &&& l.ping.current_ping_sent is None
    &&& l.unacked.txed_unacked is None
}

/// A confirmed link is not tested.
pub proof fn law_confirmed_link_is_left_alone(l: LinkState, limit: u128, now: Instant)
    requires
        l.wf(),
        l.status.unconfirmed is None,
    ensures
        l.test_step(limit, now).link == l,
        l.test_step(limit, now).due is None,
        !l.test_step(limit, now).recovered,
{
}

/// A link that is not quiet, or whose ping is still outstanding while it is being tested, is waited for.
pub proof fn law_busy_link_is_waited_for(l: LinkState, limit: u128, now: Instant)
    requires
        l.status.test == LinkTest::Inactive && !is_quiet(l) || l.status.test == LinkTest::InProgress && (
        l.ping.current_ping_sent is Some || l.ping.send_ping),
    ensures
        l.test_step(limit, now).link == l,
        !l.test_step(limit, now).recovered,
{
}

/// Whether an unconfirmed link that is quiet must be tested before it is used again. It need not be, if only an
/// acknowledgement was late and no test is required in that case, or if it is new and no test data may be sent.
pub open spec fn needs_test(l: LinkState, reason: NotWorkingReason) -> bool {
    &&& reason == NotWorkingReason::AckTimeout ==> l.eff_cfg().test_after_ack_timeout
    &&& reason == NotWorkingReason::New ==> l.eff_cfg().test_data_limit > 0
}

/// A test consists of test data, no more than the link is configured for, followed by a ping. The link stays
/// unconfirmed until it has passed the test.
pub proof fn law_unconfirmed_link_is_tested(l: LinkState, since: Instant, reason: NotWorkingReason, limit: u128, now: Instant)
    requires
        l.status.test == LinkTest::Inactive,
        is_quiet(l),
        !l.status.blocked && !l.status.remotely_blocked,
        l.status.unconfirmed == Some((since, reason)),
        needs_test(l, reason),
    ensures
        ({
            let step = l.test_step(limit, now);
            let t = step.link;
            let cfg = l.eff_cfg();
            let limit = if cfg.max_ping is Some {
                cfg.unacked_init
            } else {
                cfg.unacked_limit
            };
            &&& !step.recovered
            &&& t.status.unconfirmed == l.status.unconfirmed
            &&& t.status.test == LinkTest::InProgress
            &&& t.ping.send_ping
            &&& t.tx.tx_polling == Some(now)
            &&& t.info == l.info
            &&& (!l.tx.tx_failed && l.tx.tx_test is None ==> (t.tx.tx_test matches Some(request) ==> {
                &&& request.packet_size == l.info.cfg.io_write_size
                &&& 0 < request.data_limit <= cfg.test_data_limit
                &&& request.data_limit <= limit
                &&& (request.data_limit == cfg.test_data_limit || request.data_limit == limit || request.data_limit
                    == l.info.cfg.send_buffer)
                &&& (cfg.max_ping is None ==> request.data_limit <= l.info.cfg.send_buffer)
            }))
            &&& (!l.tx.tx_failed && cfg.test_data_limit > 0 && limit > 0 && l.info.cfg.send_buffer > 0
                ==> t.tx.tx_test is Some)
        }),
{
}

/// An unconfirmed link that is quiet and need not be tested is used again at once, unless it is blocked while it
/// would have to be tested.
pub proof fn law_link_recovers_without_test(l: LinkState, since: Instant, reason: NotWorkingReason, limit: u128, now: Instant)
    requires
        l.status.test == LinkTest::Inactive,
        is_quiet(l),
        l.status.unconfirmed == Some((since, reason)),
        !needs_test(l, reason),
        reason == NotWorkingReason::AckTimeout || (!l.status.blocked
            && !l.status.remotely_blocked),
    ensures
        ({
            let step = l.test_step(limit, now);
            &&& step.recovered
            &&& step.link.status.unconfirmed is None
            &&& step.link.status.test == LinkTest::Inactive
            &&& step.link.tx.tx_polling == Some(now)
        }),
{
}

/// A blocked link is not tested, and it is not removed for not having been confirmed either: the time since when it
/// is unconfirmed is renewed before it times out.
pub proof fn law_blocked_link_is_kept(l: LinkState, since: Instant, reason: NotWorkingReason, limit: u128, now: Instant)
    requires
        l.status.test == LinkTest::Inactive,
        is_quiet(l),
        l.status.blocked || l.status.remotely_blocked,
        l.status.unconfirmed == Some((since, reason)),
        reason == NotWorkingReason::AckTimeout ==> l.eff_cfg().test_after_ack_timeout,
    ensures
        ({
            let step = l.test_step(limit, now);
            let half = l.eff_cfg().non_working_timeout.nanos as int / 2;
            &&& !step.recovered
            &&& step.link.status.test == LinkTest::Inactive
            &&& step.link.ping == l.ping
            &&& step.link.tx == l.tx
            &&& step.link.status.unconfirmed matches Some((renewed, why))
            &&& why == reason
            &&& (renewed == since || renewed == now)
            &&& step.due matches Some(due)
            &&& due == renewed.nanos + half
            &&& (half > 0 ==> due > now.nanos)
        }),
{
}

/// The test of a link is passed exactly if its ping, once answered, is within the limit. Then it is used. Otherwise it
/// stays unconfirmed since the same time and is tested again after the configured interval.
pub proof fn law_test_is_decided_by_ping(l: LinkState, since: Instant, reason: NotWorkingReason, limit: u128, now: Instant)
    requires
        l.status.test == LinkTest::InProgress,
        l.status.unconfirmed == Some((since, reason)),
        l.ping.current_ping_sent is None,
        !l.ping.send_ping,
    ensures
        ({
            let step = l.test_step(limit, now);
            let passed = l.ping.roundtrip.nanos <= limit;
            &&& step.recovered == passed
            &&& (step.link.status.unconfirmed is None) == passed
            &&& (passed ==> step.link.status.test == LinkTest::Inactive && step.link.tx.tx_polling == Some(now))
            &&& (!passed ==> {
                &&& step.link.status.test == LinkTest::Failed(now)
                &&& step.link.status.unconfirmed == Some((since, NotWorkingReason::TestFailed))
                &&& step.due matches Some(due)
                &&& due - now.nanos == l.eff_cfg().retest_interval.nanos
            })
        }),
{
}

/// A link that failed its test is not tested again before the configured interval has passed. Then it counts as
/// not having been tested.
pub proof fn law_failed_test_is_repeated(l: LinkState, when: Instant, limit: u128, now: Instant)
    requires
        l.status.test == LinkTest::Failed(when),
    ensures
        ({
            let interval = l.eff_cfg().retest_interval.nanos;
            let fresh = LinkState {
                status: LinkStatus { test: LinkTest::Inactive, ..l.status },
                ..l
            };
            &&& (now.nanos - when.nanos < interval && interval > 0 ==> {
                &&& l.test_step(limit, now).link == l
                &&& !l.test_step(limit, now).recovered
                &&& l.test_step(limit, now).due matches Some(due)
                &&& due == when.nanos + interval
            })
            &&& (now.nanos - when.nanos >= interval ==> l.test_step(limit, now) == fresh.test_step(limit, now))
        }),
{
}

/// To pass its test the ping of a link must be within half of the maximum acknowledgement timeout, within the ping
/// spread and within its own maximum, but the latter only if some other link in use is within that value, too.
pub proof fn law_test_limit(s: TaskState, i: int)
    requires
        s.has(i),
    ensures
        ({
            let cfg = s.link(i).eff_cfg();
            let limit = s.test_roundtrip_limit(i);
            let half = cfg.ack_timeout_max.nanos as int / 2;
            let max_applies = cfg.max_ping is Some && exists|j: int|
                #![trigger s.has(j)]
                s.has(j) && j != i && in_use(s.link(j)) && s.link(j).ping.roundtrip.nanos <= cfg.max_ping->0.nanos;
            &&& limit <= half
            &&& (max_applies ==> limit <= cfg.max_ping->0.nanos)
            &&& (s.ping_spread_limits() matches Some((spread, _)) ==> limit <= spread)
            &&& {
                ||| limit == half
                ||| max_applies && limit == cfg.max_ping->0.nanos
                ||| s.ping_spread_limits() matches Some((spread, _)) && limit == spread
            }
        }),
{
    let cfg = s.link(i).eff_cfg();
    if let Some(max) = cfg.max_ping {
        if s.others_above(i, max) {
            assert forall|j: int|
                #![trigger s.has(j)]
                s.has(j) && j != i && in_use(s.link(j)) implies s.link(j).ping.roundtrip.nanos > max.nanos by {}
        } else {
            let j = choose|j: int|
                #![trigger s.has(j)]
                s.has(j) && j != i && s.link(j).is_working() && !(s.link(j).ping.roundtrip.nanos > max.nanos);
            assert(s.has(j) && in_use(s.link(j)));
        }
    }
}

/// A testing step of a link uses that limit and touches no other link. A link that is used again is not idle,
/// because its transmit sink is waited for.
pub proof fn law_testing_concerns_one_link(s: TaskState, id: usize, now: Instant)
    requires
        s.has(id as int),
    ensures
        ({
            let step = s.link(id as int).test_step(s.test_roundtrip_limit(id as int), now);
            let t = s.tested(id, now);
            &&& t.links.len() == s.links.len()
            &&& t.has(id as int)
            &&& t.link(id as int) == step.link
            &&& s.test_due(id, now) == step.due
            &&& (step.recovered ==> !t.idle.contains(id))
            &&& forall|i: int| #![trigger t.links[i]] 0 <= i < s.links.len() && i != id ==> t.links[i] == s.links[i]
            &&& forall|i: usize| #![trigger t.idle.contains(i)] i != id ==> t.idle.contains(i) == s.idle.contains(i)
        }),
{
    crate::agg::state::lemma_without(s.idle, id);
}

/// A new link is tested before it is used, unless no test data may be sent, and its readiness is reported.
pub proof fn law_new_link_is_tested_first(link: LinkState, now: Instant)
    ensures
        ({
            let l = ready_link(link, now);
            &&& (l.status.unconfirmed is None) == (link.eff_cfg().test_data_limit == 0)
            &&& (l.status.unconfirmed matches Some((since, reason)) ==> since == now && reason == NotWorkingReason::New)
            &&& l.tx.tx_polling == Some(now)
            &&& l.info == link.info
            &&& l.ping == link.ping
        }),
{
}

} // verus!
