//! How slow links are kept from stalling a connection.

use crate::agg::limits::{ids_where, lemma_ids_where, lemma_limit_ping_bound, lemma_slow_ids};
use crate::agg::link_int::{LinkState, LinkTest};
use crate::agg::send::lemma_unconfirm_wf;
use crate::agg::state::TaskState;
use crate::agg::testing::min_ping;
use crate::control::NotWorkingReason;
use crate::time::Instant;
use vstd::prelude::*;

verus! {

/// Whether a link is in use: neither is it unconfirmed nor has any endpoint blocked it.
pub open spec fn in_use(l: LinkState) -> bool {
    &&& l.status.unconfirmed is None
    &&& !l.status.blocked
    &&& !l.status.remotely_blocked
}

/// Whether the roundtrip time of a link has been estimated at least ten times.
pub open spec fn well_measured(l: LinkState) -> bool {
    l.ping.roundtrip_estimates matches Some(n) && n >= 10
}

/// A link is working exactly if it is in use, and its roundtrip time is reliable exactly if it has been
/// measured well.
pub proof fn law_working_links_are_in_use(l: LinkState)
    ensures
        l.is_working() == in_use(l),
        l.has_reliable_roundtrip() == well_measured(l),
        l.is_blocked() == (l.status.blocked || l.status.remotely_blocked),
{
}

/// The lowest ping is that of one of the links in use that are measured well, and none of them has a lower one.
proof fn lemma_min_ping(links: Seq<Option<LinkState>>)
    ensures
        match min_ping(links) {
            Some(ping) => {
                &&& exists|i: int|
                    #![trigger links[i]]
                    0 <= i < links.len() && links[i] is Some && in_use(links[i]->0) && well_measured(links[i]->0)
                        && links[i]->0.ping.roundtrip.nanos == ping
                &&& forall|i: int|
                    #![trigger links[i]]
                    0 <= i < links.len() && links[i] is Some && in_use(links[i]->0) && well_measured(links[i]->0)
                        ==> ping <= links[i]->0.ping.roundtrip.nanos
            },
            None => forall|i: int|
                #![trigger links[i]]
                0 <= i < links.len() && links[i] is Some ==> !(in_use(links[i]->0) && well_measured(links[i]->0)),
        },
    decreases links.len(),
{
    if links.len() > 0 {
        let front = links.drop_last();
        lemma_min_ping(front);
        assert forall|i: int| #![trigger links[i]] 0 <= i < front.len() implies front[i] == links[i] by {}
        let last = links.len() - 1;
        assert(links[last] == links.last());
        if let Some(ping) = min_ping(front) {
            let i = choose|i: int|
                #![trigger front[i]]
                0 <= i < front.len() && front[i] is Some && in_use(front[i]->0) && well_measured(front[i]->0)
                    && front[i]->0.ping.roundtrip.nanos == ping;
            assert(front[i] == links[i]);
        }
        assert forall|i: int|
            #![trigger links[i]]
            0 <= i < links.len() && links[i] is Some && in_use(links[i]->0) && well_measured(links[i]->0) implies (
        min_ping(links) matches Some(ping) && ping <= links[i]->0.ping.roundtrip.nanos) by {
            if i < front.len() {
                assert(front[i] == links[i]);
            }
        }
    }
}

/// The limit ping is the configured spread times the lowest ping of all links in use that are measured well, and
/// the good ping lies three quarters of the way up to it. There are no such pings only if no spread is configured
/// or there is no such link.
pub proof fn law_spread_limit_follows_fastest_link(s: TaskState)
    ensures
        match s.ping_spread_limits() {
            Some((limit, good)) => exists|i: int|
                #![trigger s.has(i)]
                {
                    let lowest = s.link(i).ping.roundtrip.nanos;
                    &&& s.has(i)
                    &&& in_use(s.link(i))
                    &&& well_measured(s.link(i))
                    &&& s.info.cfg.link_max_ping_spread matches Some(spread)
                    &&& limit == lowest * spread
                    &&& 4 * good <= lowest + 3 * limit < 4 * good + 4
                    &&& forall|j: int|
                        #![trigger s.has(j)]
                        s.has(j) && in_use(s.link(j)) && well_measured(s.link(j)) ==> lowest <= s.link(
                            j,
                        ).ping.roundtrip.nanos
                },
            None => {
                ||| s.info.cfg.link_max_ping_spread is None
                ||| forall|j: int| #![trigger s.has(j)] s.has(j) ==> !(in_use(s.link(j)) && well_measured(s.link(j)))
            },
        },
{
    lemma_min_ping(s.links);
    match (min_ping(s.links), s.info.cfg.link_max_ping_spread) {
        (Some(ping), Some(spread)) => {
            assert(0 <= ping * spread <= 0xffff_ffff_ffff_ffff * 0xffff_ffff) by (nonlinear_arith)
                requires
                    0 <= ping <= 0xffff_ffff_ffff_ffff,
                    0 <= spread <= 0xffff_ffff,
            ;
            let i = choose|i: int|
                #![trigger s.links[i]]
                0 <= i < s.links.len() && s.links[i] is Some && in_use(s.links[i]->0) && well_measured(s.links[i]->0)
                    && s.links[i]->0.ping.roundtrip.nanos == ping;
            assert(s.has(i));
        },
        _ => {
            assert forall|j: int|
                #![trigger s.has(j)]
                min_ping(s.links) is None && s.has(j) implies !(in_use(s.link(j)) && well_measured(s.link(j))) by {
                assert(s.links[j] is Some);
            }
        },
    }
}

/// Whether a link that is confirmed has a ping above its maximum, while another one in use has not.
#[verifier::opaque]
pub open spec fn above_maximum(s: TaskState, i: int) -> bool {
    &&& s.has(i)
    &&& s.link(i).status.unconfirmed is None
    &&& s.link(i).eff_cfg().max_ping matches Some(max)
    &&& s.link(i).ping.roundtrip.nanos > max.nanos
    &&& exists|j: int|
        #![trigger s.has(j)]
        s.has(j) && in_use(s.link(j)) && s.link(j).ping.roundtrip.nanos <= max.nanos
}

/// Whether a link that is confirmed and measured well has a ping more than twice above the configured spread times
/// the ping of some link in use that is measured well.
#[verifier::opaque]
pub open spec fn above_spread(s: TaskState, i: int) -> bool {
    &&& s.has(i)
    &&& s.link(i).status.unconfirmed is None
    &&& well_measured(s.link(i))
    &&& s.info.cfg.link_max_ping_spread matches Some(spread)
    &&& exists|j: int|
        #![trigger s.has(j)]
        s.has(j) && in_use(s.link(j)) && well_measured(s.link(j)) && s.link(i).ping.roundtrip.nanos > 2 * (s.link(
            j,
        ).ping.roundtrip.nanos * spread)
}

/// The links that fulfil a condition are all found.
pub proof fn lemma_ids_where_all(links: Seq<Option<LinkState>>, cond: spec_fn(LinkState) -> bool, i: int)
    requires
        links.len() <= usize::MAX,
        0 <= i < links.len(),
        links[i] is Some,
        cond(links[i]->0),
    ensures
        ids_where(links, cond).contains(i as usize),
    decreases links.len(),
{
    let ids = ids_where(links, cond);
    if i == links.len() - 1 {
        assert(ids.last() == i as usize);
        assert(ids[ids.len() - 1] == i as usize);
    } else {
        let front = links.drop_last();
        assert(front[i] == links[i]);
        lemma_ids_where_all(front, cond, i);
        let k = choose|k: int| 0 <= k < ids_where(front, cond).len() && ids_where(front, cond)[k] == i as usize;
        assert(ids[k] == i as usize);
    }
}

/// The links that are unconfirmed because of their ping are those above their maximum or above the spread.
pub proof fn lemma_slow_ids_exact(s: TaskState, i: int)
    requires
        s.links.len() <= usize::MAX,
    ensures
        0 <= i < s.links.len() ==> s.slow_ids().contains(i as usize) == (above_maximum(s, i) || above_spread(s, i)),
{
    reveal(above_spread);
    reveal(above_maximum);
    let over_max = |l: LinkState| s.above_max_ping(l);
    let a: Seq<usize> = ids_where(s.links, over_max);
    lemma_ids_where(s.links, over_max);
    law_spread_limit_follows_fastest_link(s);
    lemma_limit_ping_bound(s);
    if 0 <= i < s.links.len() {
        let id = i as usize;
        match s.ping_spread_limits() {
            Some((limit_ping, _)) => {
                let over_spread = |l: LinkState|
                    l.status.unconfirmed is None && l.ping.roundtrip.nanos > 2 * limit_ping
                        && l.has_reliable_roundtrip();
                let b: Seq<usize> = ids_where(s.links, over_spread);
                lemma_ids_where(s.links, over_spread);
                assert(s.slow_ids() == a + b);
                let fastest = choose|f: int|
                    #![trigger s.has(f)]
                    {
                        let lowest = s.link(f).ping.roundtrip.nanos;
                        &&& s.has(f)
                        &&& in_use(s.link(f))
                        &&& well_measured(s.link(f))
                        &&& s.info.cfg.link_max_ping_spread matches Some(spread)
                        &&& limit_ping == lowest * spread
                        &&& forall|j: int|
                            #![trigger s.has(j)]
                            s.has(j) && in_use(s.link(j)) && well_measured(s.link(j)) ==> lowest <= s.link(
                                j,
                            ).ping.roundtrip.nanos
                    };
                if above_spread(s, i) {
                    let spread = s.info.cfg.link_max_ping_spread->0;
                    let j = choose|j: int|
                        #![trigger s.has(j)]
                        s.has(j) && in_use(s.link(j)) && well_measured(s.link(j)) && s.link(i).ping.roundtrip.nanos
                            > 2 * (s.link(j).ping.roundtrip.nanos * spread);
                    let x = s.link(fastest).ping.roundtrip.nanos as int;
                    let y = s.link(j).ping.roundtrip.nanos as int;
                    assert(x * spread <= y * spread) by (nonlinear_arith)
                        requires
                            x <= y,
                            spread >= 0,
                    ;
                    lemma_ids_where_all(s.links, over_spread, i);
                    let k = choose|k: int| 0 <= k < b.len() && b[k] == id;
                    assert((a + b)[a.len() + k] == id);
                }
                if above_maximum(s, i) {
                    lemma_above_max(s, i);
                    lemma_ids_where_all(s.links, over_max, i);
                    let k = choose|k: int| 0 <= k < a.len() && a[k] == id;
                    assert((a + b)[k] == id);
                }
                if s.slow_ids().contains(id) {
                    let k = choose|k: int| 0 <= k < (a + b).len() && (a + b)[k] == id;
                    if k < a.len() {
                        assert(a[k] == id);
                        lemma_above_max(s, i);
                    } else {
                        assert(b[k - a.len()] == id);
                        assert(s.has(fastest));
                    }
                }
            },
            None => {
                assert(s.slow_ids() =~= a);
                if above_maximum(s, i) {
                    lemma_above_max(s, i);
                    lemma_ids_where_all(s.links, over_max, i);
                }
                if s.slow_ids().contains(id) {
                    let k = choose|k: int| 0 <= k < a.len() && a[k] == id;
                    lemma_above_max(s, i);
                }
            },
        }
    }
}

/// A link is above its maximum ping exactly if another one in use is not.
proof fn lemma_above_max(s: TaskState, i: int)
    requires
        s.has(i),
    ensures
        s.above_max_ping(s.link(i)) == above_maximum(s, i),
{
    reveal(above_maximum);
    if let Some(max) = s.link(i).eff_cfg().max_ping {
        if s.all_above(max) {
            assert forall|j: int| #![trigger s.has(j)] !(s.has(j) && in_use(s.link(j)) && s.link(j).ping.roundtrip.nanos
                <= max.nanos) by {}
        } else {
            let j = choose|j: int|
                #![trigger s.has(j)]
                s.has(j) && s.link(j).is_working() && !(s.link(j).ping.roundtrip.nanos > max.nanos);
            assert(s.has(j) && in_use(s.link(j)));
        }
    }
}

/// Unconfirming several links unconfirms them and no others.
pub proof fn lemma_unconfirm_all_at(s: TaskState, ids: Seq<usize>, reason: NotWorkingReason, now: Instant, i: usize)
    requires
        s.wf(),
        s.has(i as int),
        forall|k: int| 0 <= k < ids.len() ==> s.has(#[trigger] ids[k] as int),
    ensures
        ({
            let t = s.unconfirm_all(ids, reason, now);
            &&& t.has(i as int)
            &&& t.links.len() == s.links.len()
            &&& t.link(i as int).info == s.link(i as int).info
            &&& t.link(i as int).ping == s.link(i as int).ping
            &&& (s.link(i as int).status.test == LinkTest::Inactive ==> t.link(i as int).status.test
                == LinkTest::Inactive)
            &&& (ids.contains(i) ==> t.link(i as int).status.unconfirmed == Some((now, reason)) && t.link(
                i as int,
            ).tx.tx_polling == Some(now))
            &&& (!ids.contains(i) ==> t.link(i as int).status.unconfirmed == s.link(i as int).status.unconfirmed
                && t.link(i as int).tx == s.link(i as int).tx && t.link(i as int).flush == s.link(i as int).flush)
            &&& t.info == s.info
            &&& t.times == s.times
        }),
    decreases ids.len(),
{
    if ids.len() > 0 {
        let id = ids[0];
        let u = s.unconfirm(id, reason, now);
        let rest = ids.drop_first();
        assert(s.has(id as int));
        lemma_unconfirm_wf(s, id, reason, now);
        assert forall|k: int| 0 <= k < rest.len() implies u.has(#[trigger] rest[k] as int) by {
            assert(rest[k] == ids[k + 1]);
            assert(s.has(ids[k + 1] as int));
        }
        lemma_unconfirm_all_at(u, rest, reason, now, i);
        if ids.contains(i) && i != id {
            let k = choose|k: int| 0 <= k < ids.len() && ids[k] == i;
            assert(rest[k - 1] == i);
        }
        if rest.contains(i) {
            let k = choose|k: int| 0 <= k < rest.len() && rest[k] == i;
            assert(ids[k + 1] == i);
        }
    }
}

/// Checking the limits unconfirms exactly the links that are too slow: those above their maximum ping, while another
/// link in use is not above it, and those far above the ping spread. All others stay as confirmed as they were.
pub proof fn law_slow_links_are_unconfirmed(s: TaskState, i: usize, now: Instant)
    requires
        s.wf(),
        s.links.len() <= usize::MAX,
        s.has(i as int),
    ensures
        ({
            let t = s.check_limits(now);
            &&& t.has(i as int)
            &&& (above_maximum(s, i as int) || above_spread(s, i as int) ==> t.link(i as int).status.unconfirmed == Some(
                (now, NotWorkingReason::MaxPingExceeded),
            ))
            &&& (!above_maximum(s, i as int) && !above_spread(s, i as int) ==> t.link(i as int).status.unconfirmed
                == s.link(i as int).status.unconfirmed)
        }),
{
    lemma_slow_ids(s);
    lemma_slow_ids_exact(s, i as int);
    lemma_unconfirm_all_at(s, s.slow_ids(), NotWorkingReason::MaxPingExceeded, now, i);
}

} // verus!
