//! How the amount of unacknowledged data of a link is limited.

use crate::agg::limits::{increased_limit, lemma_map_links_at, lemma_oldest_unconfirmed};
use crate::agg::limits::{scheduled_percent, working_count};
use crate::agg::link_int::{LinkPinging, LinkState, LinkUnacked};
use crate::agg::quality::{in_use, well_measured};
use crate::agg::state::{SendOverrun, TaskState};
use crate::agg::tx::{first_sent, lemma_first_sent};
use crate::cfg::UnackedIncrease;
use crate::seq::SeqNum;
use crate::time::Instant;
use vstd::prelude::*;

verus! {

/// Whether a link differs from another one at most in its limit of unacknowledged data and in how often its roundtrip
/// time has been estimated since that limit was changed.
pub open spec fn paced(a: LinkState, b: LinkState) -> bool {
    &&& b == (LinkState { unacked: b.unacked, ping: b.ping, ..a })
    &&& b.unacked == (LinkUnacked {
        txed_unacked_data_limit: b.unacked.txed_unacked_data_limit,
        txed_unacked_data_limit_increased: b.unacked.txed_unacked_data_limit_increased,
        txed_unacked_data_limit_increased_consecutively: b.unacked.txed_unacked_data_limit_increased_consecutively,
        ..a.unacked
    })
    &&& b.ping == (LinkPinging { roundtrip_estimates: b.ping.roundtrip_estimates, ..a.ping })
}

/// The step of the schedule that applies is one that requires no more consecutive increases than there were, and no
/// later such step requires as many, nor any such step more. None applies only if all require more.
pub proof fn law_schedule_step(schedule: Seq<UnackedIncrease>, consecutively: usize)
    ensures
        match scheduled_percent(schedule, consecutively) {
            Some(step) => exists|k: int|
                #![trigger schedule[k]]
                {
                    &&& 0 <= k < schedule.len()
                    &&& schedule[k] == step
                    &&& step.consecutive <= consecutively
                    &&& forall|j: int|
                        #![trigger schedule[j]]
                        0 <= j < schedule.len() && schedule[j].consecutive <= consecutively ==> {
                            &&& schedule[j].consecutive <= step.consecutive
                            &&& (j > k ==> schedule[j].consecutive < step.consecutive)
                        }
                },
            None => forall|j: int|
                #![trigger schedule[j]]
                0 <= j < schedule.len() ==> schedule[j].consecutive > consecutively,
        },
    decreases schedule.len(),
{
    if schedule.len() > 0 {
        let front = schedule.drop_last();
        law_schedule_step(front, consecutively);
        let last = schedule.len() - 1;
        assert(schedule[last] == schedule.last());
        assert forall|j: int| #![trigger schedule[j]] 0 <= j < last implies front[j] == schedule[j] by {}
        if let Some(step) = scheduled_percent(front, consecutively) {
            let k = choose|k: int|
                #![trigger front[k]]
                {
                    &&& 0 <= k < front.len()
                    &&& front[k] == step
                    &&& step.consecutive <= consecutively
                    &&& forall|j: int|
                        #![trigger front[j]]
                        0 <= j < front.len() && front[j].consecutive <= consecutively ==> {
                            &&& front[j].consecutive <= step.consecutive
                            &&& (j > k ==> front[j].consecutive < step.consecutive)
                        }
                };
            assert(schedule[k] == step);
            assert forall|j: int|
                #![trigger schedule[j]]
                0 <= j < last && schedule[j].consecutive <= consecutively implies schedule[j].consecutive
                <= step.consecutive && (j > k ==> schedule[j].consecutive < step.consecutive) by {
                assert(front[j] == schedule[j]);
            }
        }
    }
}

/// An increased limit is the specified percentage of the limit, rounded down, unless that is less than a hundred
/// bytes or more than the maximum.
pub proof fn law_increase_by_percentage(limit: u64, percent: u32, max: usize)
    ensures
        ({
            let r = increased_limit(limit, percent, max);
            &&& r <= max
            &&& (r < max ==> r >= 100)
            &&& (100 < r < max ==> 100 * r <= limit * percent < 100 * r + 100)
            &&& (r == 100 && r < max ==> limit * percent < 100 * r + 100)
            &&& (r == max ==> max <= 100 || 100 * r <= limit * percent)
        }),
{
    assert(0 <= limit * percent) by (nonlinear_arith)
        requires
            limit >= 0,
            percent >= 0,
    ;
}

/// Whether the amount of unacknowledged data of a link is kept by its limit, which can still be raised, while nothing
/// else keeps the link from sending.
pub open spec fn held_back(l: LinkState) -> bool {
    &&& in_use(l)
    &&& !l.tx.tx_pending
    &&& l.unacked.txed_unacked_data >= l.unacked.txed_unacked_data_limit
    &&& l.unacked.txed_unacked_data_limit_increased is None
    &&& l.unacked.txed_unacked_data_limit < l.eff_cfg().unacked_limit
}

/// The limit of a link is raised exactly if it is held back by it, its schedule provides for that and its ping is
/// good: at most half of its maximum, unless all links are that slow, and, if there is a ping spread, at most the good
/// ping by a reliable measurement. Then the limit must prove itself before it is raised again.
pub proof fn law_limit_is_raised(l: LinkState, single: bool, all_slow: bool, good_ping: Option<u128>, seq: SeqNum)
    ensures
        ({
            let t = l.limit_increased(single, all_slow, good_ping, seq);
            let cfg = l.eff_cfg();
            let good = (cfg.max_ping matches Some(max) ==> l.ping.roundtrip.nanos <= max.nanos as int / 2 || all_slow) && (
            good_ping matches Some(good) ==> l.ping.roundtrip.nanos <= good && well_measured(l));
            let step = scheduled_percent(
                cfg.unacked_increase@,
                l.unacked.txed_unacked_data_limit_increased_consecutively,
            );
            let n = l.unacked.txed_unacked_data_limit_increased_consecutively;
            &&& paced(l, t)
            &&& (held_back(l) && good && (single || step is Some) ==> {
                &&& t.unacked.txed_unacked_data_limit == increased_limit(
                    l.unacked.txed_unacked_data_limit,
                    if single {
                        cfg.unacked_increase_single_link
                    } else {
                        step->0.percent
                    },
                    cfg.unacked_limit,
                )
                &&& t.unacked.txed_unacked_data_limit_increased == Some(seq)
                &&& t.unacked.txed_unacked_data_limit_increased_consecutively == n + 1 || n == usize::MAX
                &&& t.ping.roundtrip_estimates is None
            })
            &&& (!(held_back(l) && good && (single || step is Some)) ==> t == l)
        }),
{
}

/// A link in use whose ping exceeds the ping spread by a reliable measurement has its limit lowered to 95 percent of
/// what it uses, and its ping is measured anew. No other link is affected.
pub proof fn law_spread_lowers_limit(l: LinkState, limit_ping: u128, seq: SeqNum)
    ensures
        ({
            let t = l.limited_by_spread(limit_ping, seq);
            let slow = in_use(l) && well_measured(l) && l.ping.roundtrip.nanos > limit_ping;
            &&& paced(l, t)
            &&& (slow ==> lowered(l, t, 95, seq) && t.ping.roundtrip_estimates is None)
            &&& (!slow ==> t == l)
        }),
{
}

/// Whether the limit of a link has been lowered to a percentage of what it uses, rounded down.
pub open spec fn lowered(l: LinkState, t: LinkState, percent: int, seq: SeqNum) -> bool {
    let limit = t.unacked.txed_unacked_data_limit;
    &&& 100 * limit <= percent * l.unacked.txed_unacked_data
    &&& 100 * limit <= percent * l.unacked.txed_unacked_data_limit
    &&& percent * l.unacked.txed_unacked_data < 100 * limit + 100 || percent * l.unacked.txed_unacked_data_limit < 100
        * limit + 100
    &&& t.unacked.txed_unacked_data_limit_increased == Some(seq)
    &&& t.unacked.txed_unacked_data_limit_increased_consecutively == 0
}

/// A confirmed link whose ping exceeds three quarters of its maximum has its limit lowered, unless a change of its
/// limit has yet to prove itself. No other link is affected.
pub proof fn law_max_ping_lowers_limit(l: LinkState, seq: SeqNum)
    ensures
        ({
            let t = l.limited_by_max_ping(seq);
            let slow = l.status.unconfirmed is None && l.unacked.txed_unacked_data_limit_increased is None
                && l.eff_cfg().max_ping is Some && l.ping.roundtrip.nanos > (3 * l.eff_cfg().max_ping->0.nanos) / 4;
            &&& paced(l, t)
            &&& (slow ==> lowered(l, t, 95, seq))
            &&& (!slow ==> t == l)
        }),
{
}

/// The links after lowering limits because of their maximum ping.
proof fn lemma_max_ping_stage(s: TaskState, i: int)
    ensures
        ({
            let t = s.max_ping_limited();
            &&& t == (TaskState { links: t.links, ..s })
            &&& t.links.len() == s.links.len()
            &&& t.has(i) == s.has(i)
            &&& (s.has(i) ==> t.link(i) == if s.all_slow(2) {
                s.link(i)
            } else {
                s.link(i).limited_by_max_ping(s.coming_seq())
            })
        }),
{
    let coming = s.coming_seq();
    lemma_map_links_at(s, |l: LinkState| l.limited_by_max_ping(coming), i);
}

/// The links after lowering limits because of the ping spread.
proof fn lemma_spread_stage(s: TaskState, i: int)
    ensures
        ({
            let t = s.spread_limited();
            &&& t == (TaskState { links: t.links, ..s })
            &&& t.links.len() == s.links.len()
            &&& t.has(i) == s.has(i)
            &&& (s.has(i) ==> t.link(i) == match s.ping_spread_limits() {
                Some((limit_ping, _)) => s.link(i).limited_by_spread(limit_ping, s.coming_seq()),
                None => s.link(i),
            })
        }),
{
    let coming = s.coming_seq();
    if let Some((limit_ping, _)) = s.ping_spread_limits() {
        lemma_map_links_at(s, |l: LinkState| l.limited_by_spread(limit_ping, coming), i);
    }
}

/// The links after raising limits.
proof fn lemma_increase_stage(s: TaskState, all_slow: bool, good_ping: Option<u128>, i: int)
    ensures
        ({
            let t = s.limits_increased(all_slow, good_ping);
            &&& t == (TaskState { links: t.links, ..s })
            &&& t.links.len() == s.links.len()
            &&& t.has(i) == s.has(i)
            &&& (s.has(i) ==> t.link(i) == if s.send_data_avail() && !s.link_avail() {
                s.link(i).limit_increased(working_count(s.links) == 1, all_slow, good_ping, s.coming_seq())
            } else {
                s.link(i)
            })
        }),
{
    let coming = s.coming_seq();
    let single = working_count(s.links) == 1;
    lemma_map_links_at(s, |l: LinkState| l.limit_increased(single, all_slow, good_ping, coming), i);
}

/// The links after resetting the number of consecutive increases.
proof fn lemma_reset_stage(s: TaskState, remote: u32, i: int)
    ensures
        ({
            let t = s.consecutive_reset(remote);
            &&& t == (TaskState { links: t.links, ..s })
            &&& t.links.len() == s.links.len()
            &&& t.has(i) == s.has(i)
            &&& (s.has(i) ==> paced(s.link(i), t.link(i)) && t.link(i).unacked.txed_unacked_data_limit == s.link(
                i,
            ).unacked.txed_unacked_data_limit)
        }),
{
    lemma_map_links_at(s, |l: LinkState| l.consecutive_reset(), i);
}

/// Handling too much unconsumable data changes nothing about a link but its limit.
proof fn lemma_overrun_paced(s: TaskState, remote: u32, now: Instant, i: int)
    requires
        s.wf(),
        s.has(i),
    ensures
        ({
            let t = s.overrun_handled(remote, now).overrun_rearmed(now);
            &&& t.links.len() == s.links.len()
            &&& t.has(i)
            &&& paced(s.link(i), t.link(i))
        }),
{
    lemma_oldest_unconfirmed(s);
}

/// Adjusting the limits changes nothing about a link but its limit.
#[verifier::rlimit(60)]
#[verifier::spinoff_prover]
pub proof fn law_adjusting_changes_limits_only(s: TaskState, now: Instant, i: int)
    requires
        s.wf(),
        s.has(i),
    ensures
        s.adjust_limits(now).links.len() == s.links.len(),
        s.adjust_limits(now).has(i),
        paced(s.link(i), s.adjust_limits(now).link(i)),
{
    reveal(TaskState::adjust_limits);
    if let Some(remote) = s.remote_recv_buffer() {
        lemma_overrun_paced(s, remote, now, i);
        let a = s.overrun_handled(remote, now).overrun_rearmed(now);
        let all_slow = a.all_slow(2);
        let b = a.max_ping_limited();
        lemma_max_ping_stage(a, i);
        law_max_ping_lowers_limit(a.link(i), a.coming_seq());
        let good_ping: Option<u128> = match b.ping_spread_limits() {
            Some((_, good_ping)) => Some(good_ping),
            None => None,
        };
        let c = b.spread_limited();
        lemma_spread_stage(b, i);
        let d = c.limits_increased(all_slow, good_ping);
        lemma_increase_stage(c, all_slow, good_ping, i);
        lemma_reset_stage(d, remote, i);
    }
}

/// The number of working links is one exactly if there is one and no other.
proof fn lemma_working_count(links: Seq<Option<LinkState>>, i: int)
    requires
        0 <= i < links.len(),
        links[i] is Some,
        in_use(links[i]->0),
    ensures
        working_count(links) >= 1,
        working_count(links) == 1 <==> forall|j: int|
            #![trigger links[j]]
            0 <= j < links.len() && j != i && links[j] is Some ==> !in_use(links[j]->0),
    decreases links.len(),
{
    let front = links.drop_last();
    let last = links.len() - 1;
    assert(links[last] == links.last());
    assert forall|j: int| #![trigger links[j]] 0 <= j < last implies front[j] == links[j] by {}
    if i < last {
        lemma_working_count(front, i);
        if working_count(links) == 1 {
            assert forall|j: int|
                #![trigger links[j]]
                0 <= j < links.len() && j != i && links[j] is Some implies !in_use(links[j]->0) by {
                if j < last {
                    assert(front[j] == links[j]);
                }
            }
        }
    } else {
        lemma_no_working(front);
        if working_count(links) == 1 {
            assert forall|j: int|
                #![trigger links[j]]
                0 <= j < links.len() && j != i && links[j] is Some implies !in_use(links[j]->0) by {
                assert(front[j] == links[j]);
            }
        }
    }
}

/// There is no working link exactly if none is in use.
proof fn lemma_no_working(links: Seq<Option<LinkState>>)
    ensures
        working_count(links) == 0 <==> forall|j: int|
            #![trigger links[j]]
            0 <= j < links.len() && links[j] is Some ==> !in_use(links[j]->0),
    decreases links.len(),
{
    if links.len() > 0 {
        let front = links.drop_last();
        let last = links.len() - 1;
        assert(links[last] == links.last());
        lemma_no_working(front);
        assert forall|j: int| #![trigger links[j]] 0 <= j < last implies front[j] == links[j] by {}
        if working_count(links) == 0 {
            assert forall|j: int|
                #![trigger links[j]]
                0 <= j < links.len() && links[j] is Some implies !in_use(links[j]->0) by {
                if j < last {
                    assert(front[j] == links[j]);
                }
            }
        }
    }
}

/// The smaller of the local send buffer and the receive buffer of the remote endpoint.
pub open spec fn usable_buffer(s: TaskState) -> int {
    match s.info.remote_cfg {
        Some(remote) => if remote.recv_buffer < s.info.cfg.send_buffer {
            remote.recv_buffer as int
        } else {
            s.info.cfg.send_buffer as int
        },
        None => 0,
    }
}

/// Whether data is waiting to be sent or resent.
pub open spec fn data_waits(s: TaskState) -> bool {
    (s.write_rx matches Some(rx) && rx.peeked is Some) || s.tx.resend_queue.len() > 0
}

/// Whether some link can take data immediately.
pub open spec fn data_can_go(s: TaskState) -> bool {
    exists|j: int|
        #![trigger s.has(j)]
        s.has(j) && in_use(s.link(j)) && !s.link(j).tx.tx_pending && s.link(j).unacked.txed_unacked_data < s.link(
            j,
        ).unacked.txed_unacked_data_limit
}

/// While little data is unconsumable, nothing is lowered because of it.
proof fn lemma_no_overrun(s: TaskState, now: Instant)
    requires
        s.info.remote_cfg is Some,
        s.tx.unconsumable <= usable_buffer(s) / 3,
    ensures
        ({
            let remote = s.info.remote_cfg->0.recv_buffer;
            let t = s.overrun_handled(remote, now).overrun_rearmed(now);
            &&& t == (TaskState { times: t.times, ..s })
            &&& t.times.tx_overrun == SendOverrun::Armed
            &&& s.remote_recv_buffer() == Some(remote)
        }),
{
}

/// A limit that keeps data from being sent is raised: if data waits that no link can take, the limit of a link that is
/// held back by it is raised by the percentage that applies, which depends on whether it is the only link in use.
#[verifier::rlimit(60)]
#[verifier::spinoff_prover]
pub proof fn law_limit_is_raised_when_needed(s: TaskState, now: Instant, i: int)
    requires
        s.wf(),
        s.has(i),
        s.info.remote_cfg is Some,
        s.tx.unconsumable <= usable_buffer(s) / 3,
        s.info.cfg.link_max_ping_spread is None,
        forall|j: int| #![trigger s.has(j)] s.has(j) ==> s.link(j).eff_cfg().max_ping is None,
        data_waits(s),
        !data_can_go(s),
        held_back(s.link(i)),
    ensures
        ({
            let l = s.link(i);
            let limit = s.adjust_limits(now).link(i).unacked.txed_unacked_data_limit;
            let alone = forall|j: int| #![trigger s.has(j)] s.has(j) && j != i ==> !in_use(s.link(j));
            let step = scheduled_percent(
                l.eff_cfg().unacked_increase@,
                l.unacked.txed_unacked_data_limit_increased_consecutively,
            );
            &&& (alone ==> limit == increased_limit(
                l.unacked.txed_unacked_data_limit,
                l.eff_cfg().unacked_increase_single_link,
                l.eff_cfg().unacked_limit,
            ))
            &&& (!alone && step is Some ==> limit == increased_limit(
                l.unacked.txed_unacked_data_limit,
                step->0.percent,
                l.eff_cfg().unacked_limit,
            ))
            &&& (!alone && step is None ==> limit == l.unacked.txed_unacked_data_limit)
        }),
{
    reveal(TaskState::adjust_limits);
    let remote = s.info.remote_cfg->0.recv_buffer;
    lemma_no_overrun(s, now);
    let a = s.overrun_handled(remote, now).overrun_rearmed(now);
    assert(a.all_slow(2)) by {
        assert forall|j: int| #![trigger a.has(j)] a.has(j) && a.link(j).is_working() implies a.link(
            j,
        ).not_within_max_ping(2) by {
            assert(s.has(j));
        }
    }
    let b = a.max_ping_limited();
    assert(b == a);
    assert(b.ping_spread_limits() is None);
    let c = b.spread_limited();
    assert(c == a);
    assert(c.links == s.links);
    assert(!c.link_avail()) by {
        assert forall|j: int| #![trigger c.has(j)] c.has(j) implies !c.link(j).is_available() by {
            assert(s.has(j));
        }
    }
    assert(s.links[i] is Some);
    lemma_working_count(s.links, i);
    let alone = forall|j: int| #![trigger s.has(j)] s.has(j) && j != i ==> !in_use(s.link(j));
    assert(alone == (working_count(s.links) == 1)) by {
        if alone {
            assert forall|j: int|
                #![trigger s.links[j]]
                0 <= j < s.links.len() && j != i && s.links[j] is Some implies !in_use(s.links[j]->0) by {
                assert(s.has(j));
            }
        }
        if working_count(s.links) == 1 {
            assert forall|j: int| #![trigger s.has(j)] s.has(j) && j != i implies !in_use(s.link(j)) by {
                assert(s.links[j] is Some);
            }
        }
    }
    lemma_increase_stage(c, true, None, i);
    let d = c.limits_increased(true, None);
    lemma_reset_stage(d, remote, i);
    law_limit_is_raised(s.link(i), working_count(s.links) == 1, true, None, c.coming_seq());
    assert(s.adjust_limits(now) == d.consecutive_reset(remote));
}

/// A limit is raised only if data waits and the link is held back by its limit.
#[verifier::rlimit(60)]
#[verifier::spinoff_prover]
pub proof fn law_limit_is_raised_only_when_needed(s: TaskState, now: Instant, i: int)
    requires
        s.wf(),
        s.has(i),
        s.adjust_limits(now).link(i).unacked.txed_unacked_data_limit > s.link(i).unacked.txed_unacked_data_limit,
    ensures
        data_waits(s),
        held_back(s.link(i)),
{
    reveal(TaskState::adjust_limits);
    if let Some(remote) = s.remote_recv_buffer() {
        lemma_overrun_paced(s, remote, now, i);
        lemma_overrun_lowers(s, remote, now, i);
        let a = s.overrun_handled(remote, now).overrun_rearmed(now);
        let all_slow = a.all_slow(2);
        let b = a.max_ping_limited();
        lemma_max_ping_stage(a, i);
        law_max_ping_lowers_limit(a.link(i), a.coming_seq());
        let good_ping: Option<u128> = match b.ping_spread_limits() {
            Some((_, good_ping)) => Some(good_ping),
            None => None,
        };
        let c = b.spread_limited();
        lemma_spread_stage(b, i);
        let d = c.limits_increased(all_slow, good_ping);
        lemma_increase_stage(c, all_slow, good_ping, i);
        lemma_reset_stage(d, remote, i);
        law_limit_is_raised(
            c.link(i),
            working_count(c.links) == 1,
            all_slow,
            good_ping,
            c.coming_seq(),
        );
    }
}

/// Handling too much unconsumable data lowers the limit of a link or leaves it alone.
proof fn lemma_overrun_lowers(s: TaskState, remote: u32, now: Instant, i: int)
    requires
        s.wf(),
        s.has(i),
    ensures
        ({
            let t = s.overrun_handled(remote, now).overrun_rearmed(now);
            &&& t.write_rx == s.write_rx
            &&& t.tx == s.tx
            &&& t.link(i).unacked.txed_unacked_data_limit <= s.link(i).unacked.txed_unacked_data_limit
            &&& (t.link(i) == s.link(i) || t.link(i).unacked.txed_unacked_data_limit_increased is Some)
        }),
{
    lemma_oldest_unconfirmed(s);
}

/// Whether the limit of a link has been lowered to at most a percentage of what it uses.
pub open spec fn lowered_to(l: LinkState, t: LinkState, percent: int) -> bool {
    &&& 100 * t.unacked.txed_unacked_data_limit <= percent * l.unacked.txed_unacked_data
    &&& 100 * t.unacked.txed_unacked_data_limit <= percent * l.unacked.txed_unacked_data_limit
}

/// A link in use whose reliable ping exceeds the limit ping given by the ping spread may have less data on its way.
#[verifier::rlimit(60)]
#[verifier::spinoff_prover]
pub proof fn law_link_above_spread_is_slowed_down(s: TaskState, now: Instant, i: int)
    requires
        s.wf(),
        s.has(i),
        s.info.remote_cfg is Some,
        s.tx.unconsumable <= usable_buffer(s) / 3,
        forall|j: int| #![trigger s.has(j)] s.has(j) ==> s.link(j).eff_cfg().max_ping is None,
        in_use(s.link(i)),
        well_measured(s.link(i)),
        s.ping_spread_limits() matches Some((limit, _)) && s.link(i).ping.roundtrip.nanos > limit,
    ensures
        lowered_to(s.link(i), s.adjust_limits(now).link(i), 95),
{
    reveal(TaskState::adjust_limits);
    let remote = s.info.remote_cfg->0.recv_buffer;
    lemma_no_overrun(s, now);
    let a = s.overrun_handled(remote, now).overrun_rearmed(now);
    assert(a.all_slow(2)) by {
        assert forall|j: int| #![trigger a.has(j)] a.has(j) && a.link(j).is_working() implies a.link(
            j,
        ).not_within_max_ping(2) by {
            assert(s.has(j));
        }
    }
    let b = a.max_ping_limited();
    assert(b == a);
    assert(b.links == s.links);
    let (limit_ping, _) = s.ping_spread_limits()->0;
    let c = b.spread_limited();
    lemma_spread_stage(b, i);
    let good_ping: Option<u128> = match b.ping_spread_limits() {
        Some((_, good_ping)) => Some(good_ping),
        None => None,
    };
    lemma_increase_stage(c, true, good_ping, i);
    let d = c.limits_increased(true, good_ping);
    lemma_reset_stage(d, remote, i);
    law_spread_lowers_limit(b.link(i), limit_ping, b.coming_seq());
    law_limit_is_raised(c.link(i), working_count(c.links) == 1, true, good_ping, c.coming_seq());
    assert(s.adjust_limits(now) == d.consecutive_reset(remote));
}

/// A confirmed link whose ping approaches its maximum may have less data on its way, unless all links are slow.
#[verifier::rlimit(60)]
#[verifier::spinoff_prover]
pub proof fn law_link_near_maximum_is_slowed_down(s: TaskState, now: Instant, i: int, j: int)
    requires
        s.wf(),
        s.has(i),
        s.has(j),
        s.info.remote_cfg is Some,
        s.tx.unconsumable <= usable_buffer(s) / 3,
        s.info.cfg.link_max_ping_spread is None,
        s.link(i).status.unconfirmed is None,
        s.link(i).unacked.txed_unacked_data_limit_increased is None,
        s.link(i).eff_cfg().max_ping matches Some(max) && s.link(i).ping.roundtrip.nanos > (3 * max.nanos) / 4,
        in_use(s.link(j)),
        s.link(j).eff_cfg().max_ping matches Some(max) && s.link(j).ping.roundtrip.nanos <= max.nanos as int / 2,
    ensures
        lowered_to(s.link(i), s.adjust_limits(now).link(i), 95),
{
    reveal(TaskState::adjust_limits);
    let remote = s.info.remote_cfg->0.recv_buffer;
    lemma_no_overrun(s, now);
    let a = s.overrun_handled(remote, now).overrun_rearmed(now);
    assert(!a.all_slow(2)) by {
        assert(a.has(j));
        assert(!a.link(j).not_within_max_ping(2));
    }
    let b = a.max_ping_limited();
    lemma_max_ping_stage(a, i);
    law_max_ping_lowers_limit(a.link(i), a.coming_seq());
    assert(b.ping_spread_limits() is None);
    let c = b.spread_limited();
    assert(c == b);
    lemma_increase_stage(c, false, None, i);
    let d = c.limits_increased(false, None);
    lemma_reset_stage(d, remote, i);
    law_limit_is_raised(c.link(i), working_count(c.links) == 1, false, None, c.coming_seq());
    assert(s.adjust_limits(now) == d.consecutive_reset(remote));
}

/// If too much data has been received out of order, the link that still owes the oldest packet may have less data on
/// its way: half of what it uses, if three quarters of the buffer are affected, or 95 percent, if a third of it is.
/// This happens once until it has taken effect or a second has passed.
#[verifier::rlimit(60)]
#[verifier::spinoff_prover]
pub proof fn law_overrun_slows_oldest_link_down(s: TaskState, now: Instant, k: int)
    requires
        s.wf(),
        s.info.remote_cfg is Some,
        0 <= k < s.tx.packets.len(),
        forall|j: int| 0 <= j < k ==> !((#[trigger] s.tx.packets[j]).status is Sent),
        s.tx.packets[k].status is Sent,
    ensures
        ({
            let id = s.tx.packets[k].status->link_id as int;
            let t = s.adjust_limits(now);
            let hard = 4 * s.tx.unconsumable >= 3 * usable_buffer(s) + 4;
            let soft = 3 * s.tx.unconsumable >= usable_buffer(s) + 3;
            &&& s.has(id)
            &&& (hard && s.times.tx_overrun != SendOverrun::Hard ==> lowered_to(s.link(id), t.link(id), 50))
            &&& (soft && s.times.tx_overrun == SendOverrun::Armed ==> lowered_to(s.link(id), t.link(id), 95))
        }),
{
    reveal(TaskState::adjust_limits);
    let remote = s.info.remote_cfg->0.recv_buffer;
    lemma_oldest_unconfirmed(s);
    lemma_first_sent(s.tx.packets);
    let f = first_sent(s.tx.packets);
    assert(f == k) by {
        if f < k {
            assert(!(s.tx.packets[f].status is Sent));
        }
        if k < f {
            assert(!(s.tx.packets[k].status is Sent));
        }
    }
    let id = s.tx.packets[k].status->link_id as int;
    let a = s.overrun_handled(remote, now).overrun_rearmed(now);
    lemma_overrun_paced(s, remote, now, id);
    let all_slow = a.all_slow(2);
    let b = a.max_ping_limited();
    lemma_max_ping_stage(a, id);
    law_max_ping_lowers_limit(a.link(id), a.coming_seq());
    let good_ping: Option<u128> = match b.ping_spread_limits() {
        Some((_, good_ping)) => Some(good_ping),
        None => None,
    };
    let c = b.spread_limited();
    lemma_spread_stage(b, id);
    let d = c.limits_increased(all_slow, good_ping);
    lemma_increase_stage(c, all_slow, good_ping, id);
    lemma_reset_stage(d, remote, id);
    law_limit_is_raised(c.link(id), working_count(c.links) == 1, all_slow, good_ping, c.coming_seq());
}

} // verus!
