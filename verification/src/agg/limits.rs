//! Limits of links: maximum ping and amount of unacknowledged data.

use crate::agg::link_int::{LinkInt, LinkPinging, LinkState, LinkUnacked};
use crate::agg::send::{lemma_link_replaced, lemma_unconfirm_wf};
use crate::agg::state::{link_entry, may_idle, SendOverrun, Task, TaskState, TaskTimes};
use crate::agg::state::{lemma_frame_wf, lemma_link_entries_update, lemma_set_link_wf, lemma_wf_link};
use crate::agg::tx::{first_sent, total, SentReliableStatus, Tally};
use crate::agg::tx::lemma_first_sent;
use crate::cfg::UnackedIncrease;
use crate::control::NotWorkingReason;
use crate::seq::SeqNum;
use crate::time::{duration_between, Duration, Instant, NANOS_PER_SEC};
use vstd::prelude::*;

verus! {

/// Percentage of the limit of unacknowledged data that the schedule requires after the specified number
/// of consecutive increases.
///
/// The step with the highest matching number of consecutive increases applies and, of several such steps,
/// the last one. `None` if no step matches.
pub open spec fn scheduled_percent(schedule: Seq<UnackedIncrease>, consecutively: usize) -> Option<UnackedIncrease>
    decreases schedule.len(),
{
    if schedule.len() == 0 {
        None
    } else {
        let before = scheduled_percent(schedule.drop_last(), consecutively);
        let step = schedule.last();
        if step.consecutive > consecutively {
            before
        } else {
            match before {
                Some(b) if b.consecutive > step.consecutive => before,
                _ => Some(step),
            }
        }
    }
}

/// The specified percentage of a limit, but at least 100 and never more than `max`.
pub open spec fn increased_limit(limit: u64, percent: u32, max: usize) -> u64 {
    let n = limit * percent / 100;
    let m = if n < 100 {
        100
    } else {
        n
    };
    if m > max {
        max as u64
    } else {
        m as u64
    }
}

impl LinkState {
    /// Link that must wait for newly sent data to be received before it may increase its limit.
    pub open spec fn with_limit(self, limit: u64, consecutively: usize, coming_seq: SeqNum) -> LinkState {
        LinkState {
            unacked: LinkUnacked {
                txed_unacked_data_limit: limit,
                txed_unacked_data_limit_increased: Some(coming_seq),
                txed_unacked_data_limit_increased_consecutively: consecutively,
                ..self.unacked
            },
            ..self
        }
    }

    /// Amount of unacknowledged data that counts when decreasing the limit.
    pub open spec fn used_limit(self) -> u64 {
        if self.unacked.txed_unacked_data < self.unacked.txed_unacked_data_limit {
            self.unacked.txed_unacked_data
        } else {
            self.unacked.txed_unacked_data_limit
        }
    }

    /// Link whose limit has been decreased by five percent.
    pub open spec fn slightly_decreased(self, coming_seq: SeqNum) -> LinkState {
        self.with_limit((self.used_limit() * 95 / 100) as u64, 0, coming_seq)
    }

    /// Link whose limit has been halved.
    pub open spec fn halved(self, coming_seq: SeqNum) -> LinkState {
        self.with_limit(self.used_limit() / 2, 0, coming_seq)
    }

    /// Link without roundtrip estimates.
    pub open spec fn without_estimates(self) -> LinkState {
        LinkState { ping: LinkPinging { roundtrip_estimates: None, ..self.ping }, ..self }
    }

    /// Link after decreasing its limit, if it approaches its maximum ping.
    pub open spec fn limited_by_max_ping(self, coming_seq: SeqNum) -> LinkState {
        if self.eff_cfg().max_ping is Some && self.status.unconfirmed is None
            && self.unacked.txed_unacked_data_limit_increased is None && self.ping.roundtrip.nanos
            > self.eff_cfg().max_ping->0.nanos * 3 / 4 {
            self.slightly_decreased(coming_seq)
        } else {
            self
        }
    }

    /// Link after decreasing its limit, if its ping is above the allowable ping spread.
    pub open spec fn limited_by_spread(self, limit_ping: u128, coming_seq: SeqNum) -> LinkState {
        if self.is_working() && self.ping.roundtrip.nanos > limit_ping && self.has_reliable_roundtrip() {
            self.slightly_decreased(coming_seq).without_estimates()
        } else {
            self
        }
    }

    /// Whether data can be sent over the link immediately.
    pub open spec fn is_available(self) -> bool {
        !self.tx.tx_pending && self.is_working() && self.is_sendable()
    }

    /// Whether the limit of the link is what keeps it from sending and may be increased.
    pub open spec fn may_increase(self, all_slow: bool, good_ping: Option<u128>) -> bool {
        &&& !self.tx.tx_pending
        &&& self.is_working()
        &&& !self.is_sendable()
        &&& self.unacked.txed_unacked_data_limit_increased is None
        &&& self.unacked.txed_unacked_data_limit < self.eff_cfg().unacked_limit
        &&& (self.eff_cfg().max_ping matches Some(max_ping) ==> self.ping.roundtrip.nanos <= max_ping.nanos / 2
            || all_slow)
        &&& (good_ping matches Some(good_ping) ==> self.ping.roundtrip.nanos <= good_ping
            && self.has_reliable_roundtrip())
    }

    /// Percentage by which the limit of the link is increased, if it is.
    pub open spec fn increase_percent(self, single: bool) -> Option<u32> {
        if single {
            Some(self.eff_cfg().unacked_increase_single_link)
        } else {
            match scheduled_percent(
                self.eff_cfg().unacked_increase@,
                self.unacked.txed_unacked_data_limit_increased_consecutively,
            ) {
                Some(step) => Some(step.percent),
                None => None,
            }
        }
    }

    /// Link after increasing its limit, if that may be done.
    pub open spec fn limit_increased(
        self,
        single: bool,
        all_slow: bool,
        good_ping: Option<u128>,
        coming_seq: SeqNum,
    ) -> LinkState {
        match self.increase_percent(single) {
            Some(percent) if self.may_increase(all_slow, good_ping) => {
                let n = self.unacked.txed_unacked_data_limit_increased_consecutively;
                self.with_limit(
                    increased_limit(self.unacked.txed_unacked_data_limit, percent, self.eff_cfg().unacked_limit),
                    if n < usize::MAX {
                        (n + 1) as usize
                    } else {
                        n
                    },
                    coming_seq,
                ).without_estimates()
            },
            _ => self,
        }
    }

    /// Whether the limit is not above that of an earlier state of the link or within its maximum.
    pub open spec fn raised_within_maximum(self, before: LinkState) -> bool {
        self.unacked.txed_unacked_data_limit > before.unacked.txed_unacked_data_limit
            ==> self.unacked.txed_unacked_data_limit <= before.eff_cfg().unacked_limit
    }

    /// Link that starts counting consecutive increases of its limit anew.
    pub open spec fn consecutive_reset(self) -> LinkState {
        LinkState {
            unacked: LinkUnacked { txed_unacked_data_limit_increased_consecutively: 0, ..self.unacked },
            ..self
        }
    }
}

/// Whether a change of links leaves alone what the invariant of the task says of them.
pub open spec fn harmless(f: spec_fn(LinkState) -> LinkState) -> bool {
    forall|l: LinkState|
        #![trigger f(l)]
        {
            &&& (l.wf() ==> f(l).wf())
            &&& f(l).info == l.info
            &&& f(l).unacked.txed_unacked_data == l.unacked.txed_unacked_data
            &&& f(l).tx == l.tx
            &&& f(l).status == l.status
        }
}

/// An entry of the list of links after changing the link.
pub open spec fn mapped(link: Option<LinkState>, f: spec_fn(LinkState) -> LinkState) -> Option<LinkState> {
    match link {
        Some(l) => Some(f(l)),
        None => None,
    }
}

/// Number of working links.
pub open spec fn working_count(links: Seq<Option<LinkState>>) -> nat
    decreases links.len(),
{
    if links.len() == 0 {
        0
    } else {
        working_count(links.drop_last()) + (match links.last() {
            Some(l) if l.is_working() => 1nat,
            _ => 0nat,
        })
    }
}

/// Indices of the links that fulfil a condition.
pub open spec fn ids_where(links: Seq<Option<LinkState>>, cond: spec_fn(LinkState) -> bool) -> Seq<usize>
    decreases links.len(),
{
    if links.len() == 0 {
        Seq::empty()
    } else {
        let ids = ids_where(links.drop_last(), cond);
        match links.last() {
            Some(l) if cond(l) => ids.push((links.len() - 1) as usize),
            _ => ids,
        }
    }
}

impl TaskState {
    /// State after changing all links.
    pub open spec fn map_links(self, f: spec_fn(LinkState) -> LinkState) -> TaskState {
        TaskState { links: self.links.map_values(|l: Option<LinkState>| mapped(l, f)), ..self }
    }

    /// Whether no working link is within its maximum ping, divided by `divisor`.
    pub open spec fn all_slow(self, divisor: u64) -> bool {
        forall|i: int|
            #![trigger self.has(i)]
            self.has(i) && self.link(i).is_working() ==> self.link(i).not_within_max_ping(divisor)
    }

    /// Whether the ping of every working link is above the specified value.
    pub open spec fn all_above(self, ping: Duration) -> bool {
        forall|i: int|
            #![trigger self.has(i)]
            self.has(i) && self.link(i).is_working() ==> self.link(i).ping.roundtrip.nanos > ping.nanos
    }

    /// Whether a link is confirmed and has a ping above its maximum, while not all links have a
    /// ping above that value.
    pub open spec fn above_max_ping(self, link: LinkState) -> bool {
        match link.eff_cfg().max_ping {
            Some(max_ping) => link.status.unconfirmed is None && link.ping.roundtrip.nanos > max_ping.nanos
                && !self.all_above(max_ping),
            None => false,
        }
    }

    /// Links to unconfirm because of their ping.
    ///
    /// These are the confirmed links with a ping above their maximum, unless all links have a ping above
    /// that value, and the confirmed links whose ping is more than twice above the ping spread limit.
    pub open spec fn slow_ids(self) -> Seq<usize> {
        let over_max = ids_where(self.links, |l: LinkState| self.above_max_ping(l));
        let over_spread = match self.ping_spread_limits() {
            Some((limit_ping, _)) => ids_where(
                self.links,
                |l: LinkState|
                    l.status.unconfirmed is None && l.ping.roundtrip.nanos > 2 * limit_ping
                        && l.has_reliable_roundtrip(),
            ),
            None => Seq::empty(),
        };
        over_max + over_spread
    }

    /// State after unconfirming several links one after the other.
    pub open spec fn unconfirm_all(self, ids: Seq<usize>, reason: NotWorkingReason, now: Instant) -> TaskState
        decreases ids.len(),
    {
        if ids.len() == 0 {
            self
        } else {
            self.unconfirm(ids[0], reason, now).unconfirm_all(ids.drop_first(), reason, now)
        }
    }

    /// State after checking that links behave within limits and unconfirming links that do not.
    pub open spec fn check_limits(self, now: Instant) -> TaskState {
        self.unconfirm_all(self.slow_ids(), NotWorkingReason::MaxPingExceeded, now)
    }

    /// Sequence number of the packet that is sent next.
    pub open spec fn coming_seq(self) -> SeqNum {
        if self.tx.resend_queue.len() > 0 {
            self.tx.resend_queue[0]
        } else {
            self.tx.tx_seq
        }
    }

    /// Amount of unconsumable data that must not be exceeded.
    pub open spec fn unconsumable_limit(self, remote_recv_buffer: u32) -> u32 {
        if self.info.cfg.send_buffer < remote_recv_buffer {
            self.info.cfg.send_buffer
        } else {
            remote_recv_buffer
        }
    }

    /// Whether there is so much unconsumable data that the sender is slightly slowed down.
    pub open spec fn soft_overrun(self, remote_recv_buffer: u32) -> bool {
        self.tx.unconsumable > self.unconsumable_limit(remote_recv_buffer) / 3
    }

    /// Whether there is so much unconsumable data that the sender is considerably slowed down.
    pub open spec fn hard_overrun(self, remote_recv_buffer: u32) -> bool {
        self.tx.unconsumable > self.unconsumable_limit(remote_recv_buffer) * 3 / 4
    }

    /// State with other send overrun handling.
    pub open spec fn with_overrun(self, tx_overrun: SendOverrun, tx_overrun_since: Option<Instant>) -> TaskState {
        TaskState { times: TaskTimes { tx_overrun, tx_overrun_since, ..self.times }, ..self }
    }

    /// State after handling too much unconsumable data.
    ///
    /// The limit of the link that was used to send the oldest still unconfirmed data is decreased.
    pub open spec fn overrun_handled(self, remote_recv_buffer: u32, now: Instant) -> TaskState {
        let soft = self.soft_overrun(remote_recv_buffer);
        let hard = self.hard_overrun(remote_recv_buffer);
        if (soft && self.times.tx_overrun == SendOverrun::Armed) || (hard && self.times.tx_overrun
            != SendOverrun::Hard) {
            match self.tx.oldest_unconfirmed() {
                Some(u) => {
                    let link = self.link(u.link_id as int);
                    if hard {
                        self.set_link(u.link_id as int, link.halved(self.coming_seq())).with_overrun(
                            SendOverrun::Hard,
                            Some(now),
                        )
                    } else {
                        self.set_link(
                            u.link_id as int,
                            link.slightly_decreased(self.coming_seq()),
                        ).with_overrun(SendOverrun::Soft, Some(now))
                    }
                },
                None => self,
            }
        } else if self.times.tx_overrun != SendOverrun::Armed && !soft && !hard {
            self.with_overrun(SendOverrun::Armed, None)
        } else {
            self
        }
    }

    /// State after re-arming send overrun handling, if it is blocked for too long.
    pub open spec fn overrun_rearmed(self, now: Instant) -> TaskState {
        match self.times.tx_overrun_since {
            Some(since) if duration_between(since, now).nanos >= NANOS_PER_SEC => self.with_overrun(
                SendOverrun::Armed,
                None,
            ),
            _ => self,
        }
    }

    /// Whether data is available for sending.
    pub open spec fn send_data_avail(self) -> bool {
        (self.write_rx matches Some(rx) && rx.peeked is Some) || self.tx.resend_queue.len() > 0
    }

    /// Whether data can be sent immediately over any link.
    pub open spec fn link_avail(self) -> bool {
        exists|i: int| #![trigger self.has(i)] self.has(i) && self.link(i).is_available()
    }

    /// State after decreasing the limits of links that approach their maximum ping.
    pub open spec fn max_ping_limited(self) -> TaskState {
        let coming_seq = self.coming_seq();
        if self.all_slow(2) {
            self
        } else {
            self.map_links(|l: LinkState| l.limited_by_max_ping(coming_seq))
        }
    }

    /// State after decreasing the limits of links with a ping above the allowable ping spread.
    pub open spec fn spread_limited(self) -> TaskState {
        let coming_seq = self.coming_seq();
        match self.ping_spread_limits() {
            Some((limit_ping, _)) => self.map_links(|l: LinkState| l.limited_by_spread(limit_ping, coming_seq)),
            None => self,
        }
    }

    /// State after increasing the limits of links, if they are what prevents data from being sent.
    pub open spec fn limits_increased(self, all_slow: bool, good_ping: Option<u128>) -> TaskState {
        let coming_seq = self.coming_seq();
        let single = working_count(self.links) == 1;
        if self.send_data_avail() && !self.link_avail() {
            self.map_links(|l: LinkState| l.limit_increased(single, all_slow, good_ping, coming_seq))
        } else {
            self
        }
    }

    /// State after resetting the number of consecutive increases, unless there is little unconsumable data.
    pub open spec fn consecutive_reset(self, remote_recv_buffer: u32) -> TaskState {
        if self.tx.unconsumable < self.unconsumable_limit(remote_recv_buffer) / 4 {
            self
        } else {
            self.map_links(|l: LinkState| l.consecutive_reset())
        }
    }

    /// State after adjusting the link transmission buffer limits to ensure that no link stalls the channel.
    #[verifier::opaque]
    pub open spec fn adjust_limits(self, now: Instant) -> TaskState {
        match self.remote_recv_buffer() {
            None => self,
            Some(remote) => {
                let s = self.overrun_handled(remote, now).overrun_rearmed(now);
                let all_slow = s.all_slow(2);
                let t = s.max_ping_limited();
                let good_ping = match t.ping_spread_limits() {
                    Some((_, good_ping)) => Some(good_ping),
                    None => None,
                };
                t.spread_limited().limits_increased(all_slow, good_ping).consecutive_reset(remote)
            },
        }
    }
}

/// A harmless change of all links keeps the invariant.
pub proof fn lemma_map_links_wf(s: TaskState, f: spec_fn(LinkState) -> LinkState)
    requires
        s.wf(),
        harmless(f),
    ensures
        s.map_links(f).wf(),
        forall|i: int| #![trigger s.map_links(f).has(i)] s.map_links(f).has(i) == s.has(i),
{
    reveal(TaskState::wf);
    let t = s.map_links(f);
    assert forall|i: int| #![trigger t.has(i)] t.has(i) == s.has(i) && (t.has(i) ==> t.link(i) == f(s.link(i))) by {
    }
    assert forall|i: int| #![trigger t.has(i)] t.has(i) implies t.link(i).wf() && t.link(
        i,
    ).unacked.txed_unacked_data == total(Tally::OnLink(i), t.tx.packets) by {
        assert(s.has(i));
    }
    assert forall|k: int| 0 <= k < t.tx.packets.len() implies t.packet_link_wf(#[trigger] t.tx.packets[k]) by {
        assert(s.packet_link_wf(s.tx.packets[k]));
        match t.tx.packets[k].status {
            SentReliableStatus::Sent { link_id, .. } => {
                assert(t.has(link_id as int));
            },
            _ => {},
        }
    }
    assert forall|i: usize| #![trigger t.idle.contains(i)] t.idle.contains(i) implies t.has(i as int) && may_idle(
        t.link(i as int),
    ) by {
        assert(s.idle.contains(i));
        assert(t.has(i as int));
    }
    assert forall|i: usize| #![trigger t.unflushed.contains(i)] t.unflushed.contains(i) implies t.has(i as int) by {
        assert(s.unflushed.contains(i));
        assert(t.has(i as int));
    }
    if t.links.len() > 0 {
        assert(s.has(s.links.len() - 1));
        assert(t.has(t.links.len() - 1));
    }
}

/// The link that was used to send the oldest still unconfirmed data is present.
pub proof fn lemma_oldest_unconfirmed(s: TaskState)
    requires
        s.wf(),
    ensures
        s.tx.oldest_unconfirmed() matches Some(u) ==> s.has(u.link_id as int),
{
    reveal(TaskState::wf);
    lemma_first_sent(s.tx.packets);
    let k = first_sent(s.tx.packets);
    if k < s.tx.packets.len() {
        assert(s.packet_link_wf(s.tx.packets[k]));
    }
}

/// Handling too much unconsumable data keeps the invariant.
pub proof fn lemma_overrun_handled_wf(s: TaskState, remote: u32, now: Instant)
    requires
        s.wf(),
    ensures
        s.overrun_handled(remote, now).wf(),
        s.overrun_handled(remote, now).overrun_rearmed(now).wf(),
{
    lemma_oldest_unconfirmed(s);
    let t = s.overrun_handled(remote, now);
    match s.tx.oldest_unconfirmed() {
        Some(u) => {
            let link = s.link(u.link_id as int);
            lemma_wf_link(s, u.link_id as int);
            let h = s.set_link(u.link_id as int, link.halved(s.coming_seq()));
            let d = s.set_link(u.link_id as int, link.slightly_decreased(s.coming_seq()));
            lemma_set_link_wf(s, u.link_id as int, link.halved(s.coming_seq()));
            lemma_set_link_wf(s, u.link_id as int, link.slightly_decreased(s.coming_seq()));
            lemma_frame_wf(h, h.with_overrun(SendOverrun::Hard, Some(now)));
            lemma_frame_wf(d, d.with_overrun(SendOverrun::Soft, Some(now)));
        },
        None => {},
    }
    lemma_frame_wf(s, s.with_overrun(SendOverrun::Armed, None));
    lemma_frame_wf(t, t.with_overrun(SendOverrun::Armed, None));
}

/// Adjusting limits keeps the invariant.
pub proof fn lemma_adjust_limits_wf(s: TaskState, now: Instant)
    requires
        s.wf(),
    ensures
        s.adjust_limits(now).wf(),
{
    reveal(TaskState::adjust_limits);
    if let Some(remote) = s.remote_recv_buffer() {
        lemma_overrun_handled_wf(s, remote, now);
        let a = s.overrun_handled(remote, now).overrun_rearmed(now);
        let all_slow = a.all_slow(2);
        let coming = a.coming_seq();
        lemma_map_links_wf(a, |l: LinkState| l.limited_by_max_ping(coming));
        let b = a.max_ping_limited();
        let good_ping: Option<u128> = match b.ping_spread_limits() {
            Some((_, good_ping)) => Some(good_ping),
            None => None,
        };
        let coming_b = b.coming_seq();
        if let Some((limit_ping, _)) = b.ping_spread_limits() {
            lemma_map_links_wf(b, |l: LinkState| l.limited_by_spread(limit_ping, coming_b));
        }
        let c = b.spread_limited();
        let coming_c = c.coming_seq();
        let single = working_count(c.links) == 1;
        lemma_map_links_wf(c, |l: LinkState| l.limit_increased(single, all_slow, good_ping, coming_c));
        let d = c.limits_increased(all_slow, good_ping);
        lemma_map_links_wf(d, |l: LinkState| l.consecutive_reset());
    }
}

/// Handling too much unconsumable data raises no limit and leaves the settings of all links alone.
proof fn lemma_overrun_keeps_limits(s: TaskState, remote: u32, now: Instant, i: int)
    requires
        s.wf(),
    ensures
        ({
            let t = s.overrun_handled(remote, now).overrun_rearmed(now);
            &&& t.has(i) == s.has(i)
            &&& s.has(i) ==> t.link(i).unacked.txed_unacked_data_limit <= s.link(i).unacked.txed_unacked_data_limit
            &&& s.has(i) ==> t.link(i).info == s.link(i).info
        }),
{
    lemma_overrun_handled_wf(s, remote, now);
    if let Some(_) = s.tx.oldest_unconfirmed() {
        lemma_oldest_unconfirmed(s);
    }
}

/// Changing all links changes each of them and nothing else.
pub proof fn lemma_map_links_at(s: TaskState, f: spec_fn(LinkState) -> LinkState, i: int)
    ensures
        s.map_links(f).has(i) == s.has(i),
        s.has(i) ==> s.map_links(f).link(i) == f(s.link(i)),
{
}

/// Adjusting limits keeps all links, and a limit of unacknowledged data that is raised never exceeds
/// the maximum configured for the link.
#[verifier::rlimit(40)]
pub proof fn law_raised_limit_within_maximum(s: TaskState, now: Instant, i: int)
    requires
        s.wf(),
    ensures
        s.adjust_limits(now).has(i) == s.has(i),
        s.has(i) ==> s.adjust_limits(now).link(i).raised_within_maximum(s.link(i)),
{
    reveal(TaskState::adjust_limits);
    if let Some(remote) = s.remote_recv_buffer() {
        lemma_overrun_keeps_limits(s, remote, now, i);
        let a = s.overrun_handled(remote, now).overrun_rearmed(now);
        let all_slow = a.all_slow(2);
        let coming = a.coming_seq();
        lemma_map_links_at(a, |l: LinkState| l.limited_by_max_ping(coming), i);
        let b = a.max_ping_limited();
        let good_ping: Option<u128> = match b.ping_spread_limits() {
            Some((_, good_ping)) => Some(good_ping),
            None => None,
        };
        let coming_b = b.coming_seq();
        if let Some((limit_ping, _)) = b.ping_spread_limits() {
            lemma_map_links_at(b, |l: LinkState| l.limited_by_spread(limit_ping, coming_b), i);
        }
        let c = b.spread_limited();
        let coming_c = c.coming_seq();
        let single = working_count(c.links) == 1;
        lemma_map_links_at(c, |l: LinkState| l.limit_increased(single, all_slow, good_ping, coming_c), i);
        let d = c.limits_increased(all_slow, good_ping);
        lemma_map_links_at(d, |l: LinkState| l.consecutive_reset(), i);
    }
}

/// Unconfirming several links keeps the invariant.
pub proof fn lemma_unconfirm_all_wf(s: TaskState, ids: Seq<usize>, reason: NotWorkingReason, now: Instant)
    requires
        s.wf(),
        forall|k: int| 0 <= k < ids.len() ==> s.has(#[trigger] ids[k] as int),
    ensures
        s.unconfirm_all(ids, reason, now).wf(),
    decreases ids.len(),
{
    if ids.len() > 0 {
        let t = s.unconfirm(ids[0], reason, now);
        assert(s.has(ids[0] as int));
        lemma_unconfirm_wf(s, ids[0], reason, now);
        let rest = ids.drop_first();
        assert forall|k: int| 0 <= k < rest.len() implies t.has(#[trigger] rest[k] as int) by {
            assert(rest[k] == ids[k + 1]);
            assert(t.has(ids[k + 1] as int) == s.has(ids[k + 1] as int));
        }
        lemma_unconfirm_all_wf(t, rest, reason, now);
    }
}

/// The links that fulfil a condition are present.
pub proof fn lemma_ids_where(links: Seq<Option<LinkState>>, cond: spec_fn(LinkState) -> bool)
    requires
        links.len() <= usize::MAX,
    ensures
        forall|k: int|
            0 <= k < ids_where(links, cond).len() ==> (#[trigger] ids_where(links, cond)[k]) < links.len()
                && links[ids_where(links, cond)[k] as int] is Some && cond(links[ids_where(links, cond)[k] as int]->0),
    decreases links.len(),
{
    if links.len() > 0 {
        lemma_ids_where(links.drop_last(), cond);
        let ids = ids_where(links.drop_last(), cond);
        assert forall|k: int| 0 <= k < ids_where(links, cond).len() implies (
        #[trigger] ids_where(links, cond)[k]) < links.len() && links[ids_where(links, cond)[k] as int] is Some && cond(
            links[ids_where(links, cond)[k] as int]->0,
        ) by {
            if k < ids.len() {
                assert(ids_where(links, cond)[k] == ids[k]);
                assert(links.drop_last()[ids[k] as int] == links[ids[k] as int]);
            }
        }
    }
}

/// The links to unconfirm are present.
pub proof fn lemma_slow_ids(s: TaskState)
    requires
        s.links.len() <= usize::MAX,
    ensures
        forall|k: int| 0 <= k < s.slow_ids().len() ==> s.has(#[trigger] s.slow_ids()[k] as int),
{
    let over_max = |l: LinkState| s.above_max_ping(l);
    lemma_ids_where(s.links, over_max);
    let a: Seq<usize> = ids_where(s.links, over_max);
    let b: Seq<usize> = match s.ping_spread_limits() {
        Some((limit_ping, _)) => ids_where(
            s.links,
            |l: LinkState|
                l.status.unconfirmed is None && l.ping.roundtrip.nanos > 2 * limit_ping && l.has_reliable_roundtrip(),
        ),
        None => Seq::empty(),
    };
    if let Some((limit_ping, _)) = s.ping_spread_limits() {
        lemma_ids_where(
            s.links,
            |l: LinkState|
                l.status.unconfirmed is None && l.ping.roundtrip.nanos > 2 * limit_ping && l.has_reliable_roundtrip(),
        );
    }
    assert(s.slow_ids() == a + b);
    assert forall|k: int| 0 <= k < s.slow_ids().len() implies s.has(#[trigger] s.slow_ids()[k] as int) by {
        if k < a.len() {
            assert(s.slow_ids()[k] == a[k]);
        } else {
            assert(s.slow_ids()[k] == b[k - a.len()]);
        }
    }
}

impl LinkInt {
    /// Sets the limit of unacknowledged data and blocks it from being increased until newly
    /// sent data is received.
    fn set_limit(&mut self, limit: u64, consecutively: usize, coming_seq: SeqNum)
        ensures
            final(self)@ == old(self)@.with_limit(limit, consecutively, coming_seq),
    {
        self.unacked.txed_unacked_data_limit = limit;
        self.unacked.txed_unacked_data_limit_increased = Some(coming_seq);
        self.unacked.txed_unacked_data_limit_increased_consecutively = consecutively;
    }

    /// Amount of unacknowledged data that counts when decreasing the limit.
    fn used_limit(&self) -> (r: u64)
        ensures
            r == self@.used_limit(),
    {
        if self.unacked.txed_unacked_data < self.unacked.txed_unacked_data_limit {
            self.unacked.txed_unacked_data
        } else {
            self.unacked.txed_unacked_data_limit
        }
    }

    /// Decreases the limit of unacknowledged data by five percent.
    fn decrease_limit(&mut self, coming_seq: SeqNum)
        ensures
            final(self)@ == old(self)@.slightly_decreased(coming_seq),
    {
        let current: u64 = self.used_limit();
        self.set_limit((current as u128 * 95 / 100) as u64, 0, coming_seq);
    }

    /// Halves the limit of unacknowledged data.
    fn halve_limit(&mut self, coming_seq: SeqNum)
        ensures
            final(self)@ == old(self)@.halved(coming_seq),
    {
        let current: u64 = self.used_limit();
        self.set_limit(current / 2, 0, coming_seq);
    }

    /// Decreases the limit of unacknowledged data, if the link approaches its maximum ping.
    fn limit_by_max_ping(&mut self, coming_seq: SeqNum)
        ensures
            final(self)@ == old(self)@.limited_by_max_ping(coming_seq),
    {
        if let Some(max_ping) = self.link_cfg().max_ping {
            if self.status.unconfirmed.is_none() && self.unacked.txed_unacked_data_limit_increased.is_none()
                && self.ping.roundtrip.nanos as u128 > max_ping.nanos as u128 * 3 / 4 {
                self.decrease_limit(coming_seq);
            }
        }
    }

    /// Decreases the limit of unacknowledged data, if the ping is above the allowable ping spread.
    fn limit_by_spread(&mut self, limit_ping: u128, coming_seq: SeqNum)
        ensures
            final(self)@ == old(self)@.limited_by_spread(limit_ping, coming_seq),
    {
        if self.is_working() && self.ping.roundtrip.nanos as u128 > limit_ping && self.has_reliable_roundtrip() {
            self.decrease_limit(coming_seq);
            self.ping.roundtrip_estimates = None;
        }
    }

    /// Whether data can be sent over the link immediately.
    fn is_available(&self) -> (r: bool)
        ensures
            r == self@.is_available(),
    {
        !self.tx.tx_pending && self.is_working() && self.is_sendable()
    }

    /// Whether the limit of the link is what keeps it from sending and may be increased.
    fn may_increase(&self, all_slow: bool, good_ping: Option<u128>) -> (r: bool)
        ensures
            r == self@.may_increase(all_slow, good_ping),
    {
        if self.tx.tx_pending || !self.is_working() || self.is_sendable()
            || self.unacked.txed_unacked_data_limit_increased.is_some()
            || self.unacked.txed_unacked_data_limit >= self.link_cfg().unacked_limit as u64 {
            return false;
        }
        if let Some(max_ping) = self.link_cfg().max_ping {
            if self.ping.roundtrip.nanos > max_ping.nanos / 2 && !all_slow {
                return false;
            }
        }
        match good_ping {
            Some(good_ping) => self.ping.roundtrip.nanos as u128 <= good_ping && self.has_reliable_roundtrip(),
            None => true,
        }
    }

    /// Percentage of the limit of unacknowledged data that the schedule requires.
    fn scheduled_percent(&self) -> (r: Option<u32>)
        ensures
            r == self@.increase_percent(false),
    {
        let n: usize = self.unacked.txed_unacked_data_limit_increased_consecutively;
        let schedule: &Vec<UnackedIncrease> = &self.link_cfg().unacked_increase;
        let ghost steps = schedule@;
        let mut best: Option<UnackedIncrease> = None;
        let mut i: usize = 0;
        assert(steps.take(0) =~= Seq::empty());
        while i < schedule.len()
            invariant
                steps == schedule@,
                i <= steps.len(),
                best == scheduled_percent(steps.take(i as int), n),
            decreases steps.len() - i,
        {
            assert(steps.take(i + 1).drop_last() =~= steps.take(i as int));
            let step: UnackedIncrease = schedule[i];
            if step.consecutive as u64 <= n as u64 {
                let better: bool = match best {
                    Some(b) => b.consecutive <= step.consecutive,
                    None => true,
                };
                if better {
                    best = Some(step);
                }
            }
            i += 1;
        }
        assert(steps.take(i as int) =~= steps);
        match best {
            Some(step) => Some(step.percent),
            None => None,
        }
    }

    /// Percentage by which the limit of the link is increased, if it is.
    fn increase_percent(&self, single: bool) -> (r: Option<u32>)
        ensures
            r == self@.increase_percent(single),
    {
        if single {
            Some(self.link_cfg().unacked_increase_single_link)
        } else {
            self.scheduled_percent()
        }
    }

    /// Increases the limit of unacknowledged data, if that may be done.
    fn increase_limit(&mut self, single: bool, all_slow: bool, good_ping: Option<u128>, coming_seq: SeqNum)
        ensures
            final(self)@ == old(self)@.limit_increased(single, all_slow, good_ping, coming_seq),
    {
        if let Some(percent) = self.increase_percent(single) {
            if self.may_increase(all_slow, good_ping) {
                let limit: u64 = compute_increased_limit(
                    self.unacked.txed_unacked_data_limit,
                    percent,
                    self.link_cfg().unacked_limit,
                );
                let n: usize = self.unacked.txed_unacked_data_limit_increased_consecutively.saturating_add(1);
                self.set_limit(limit, n, coming_seq);
                self.ping.roundtrip_estimates = None;
            }
        }
    }

    /// Starts counting consecutive increases of the limit anew.
    fn reset_consecutive(&mut self)
        ensures
            final(self)@ == old(self)@.consecutive_reset(),
    {
        self.unacked.txed_unacked_data_limit_increased_consecutively = 0;
    }
}

/// Computes the specified percentage of a limit, but at least 100 and never more than `max`.
fn compute_increased_limit(limit: u64, percent: u32, max: usize) -> (r: u64)
    ensures
        r == increased_limit(limit, percent, max),
{
    assert(limit * percent <= 0xffff_ffff_ffff_ffff * 0xffff_ffff) by (nonlinear_arith)
        requires
            0 <= limit <= 0xffff_ffff_ffff_ffff,
            0 <= percent <= 0xffff_ffff,
    ;
    let n: u128 = limit as u128 * percent as u128 / 100;
    let m: u128 = if n < 100 {
        100
    } else {
        n
    };
    if m > max as u128 {
        max as u64
    } else {
        m as u64
    }
}

impl Task {
    /// Decreases the limits of links that approach their maximum ping.
    fn limit_by_max_ping(&mut self, coming_seq: SeqNum)
        ensures
            final(self)@ == old(self)@.map_links(|l: LinkState| l.limited_by_max_ping(coming_seq)),
    {
        let ghost before = self@;
        let ghost f = |l: LinkState| l.limited_by_max_ping(coming_seq);
        let mut i: usize = 0;
        while i < self.links.len()
            invariant
                before == old(self)@,
                f == (|l: LinkState| l.limited_by_max_ping(coming_seq)),
                i <= before.links.len(),
                self@ == (TaskState { links: self@.links, ..before }),
                self@.links.len() == before.links.len(),
                forall|k: int| 0 <= k < i ==> self@.links[k] == mapped(before.links[k], f),
                forall|k: int| i <= k < before.links.len() ==> self@.links[k] == before.links[k],
            decreases before.links.len() - i,
        {
            let ghost entries = self.links@;
            let ghost at = self@;
            if let Some(link) = &mut self.links[i] {
                link.limit_by_max_ping(coming_seq);
            }
            proof {
                lemma_link_entries_update(entries, i as int, self.links@[i as int]);
                assert(self.links@ =~= entries.update(i as int, self.links@[i as int]));
                assert(link_entry(self.links@[i as int]) == mapped(at.links[i as int], f));
            }
            i += 1;
        }
        assert(self@.links =~= before.links.map_values(|l: Option<LinkState>| mapped(l, f)));
    }

    /// Decreases the limits of links with a ping above the allowable ping spread.
    fn limit_by_spread(&mut self, limit_ping: u128, coming_seq: SeqNum)
        ensures
            final(self)@ == old(self)@.map_links(|l: LinkState| l.limited_by_spread(limit_ping, coming_seq)),
    {
        let ghost before = self@;
        let ghost f = |l: LinkState| l.limited_by_spread(limit_ping, coming_seq);
        let mut i: usize = 0;
        while i < self.links.len()
            invariant
                before == old(self)@,
                f == (|l: LinkState| l.limited_by_spread(limit_ping, coming_seq)),
                i <= before.links.len(),
                self@ == (TaskState { links: self@.links, ..before }),
                self@.links.len() == before.links.len(),
                forall|k: int| 0 <= k < i ==> self@.links[k] == mapped(before.links[k], f),
                forall|k: int| i <= k < before.links.len() ==> self@.links[k] == before.links[k],
            decreases before.links.len() - i,
        {
            let ghost entries = self.links@;
            let ghost at = self@;
            if let Some(link) = &mut self.links[i] {
                link.limit_by_spread(limit_ping, coming_seq);
            }
            proof {
                lemma_link_entries_update(entries, i as int, self.links@[i as int]);
                assert(self.links@ =~= entries.update(i as int, self.links@[i as int]));
                assert(link_entry(self.links@[i as int]) == mapped(at.links[i as int], f));
            }
            i += 1;
        }
        assert(self@.links =~= before.links.map_values(|l: Option<LinkState>| mapped(l, f)));
    }

    /// Increases the limits of links that are blocked by it.
    fn increase_limits(&mut self, single: bool, all_slow: bool, good_ping: Option<u128>, coming_seq: SeqNum)
        ensures
            final(self)@ == old(self)@.map_links(
                |l: LinkState| l.limit_increased(single, all_slow, good_ping, coming_seq),
            ),
    {
        let ghost before = self@;
        let ghost f = |l: LinkState| l.limit_increased(single, all_slow, good_ping, coming_seq);
        let mut i: usize = 0;
        while i < self.links.len()
            invariant
                before == old(self)@,
                f == (|l: LinkState| l.limit_increased(single, all_slow, good_ping, coming_seq)),
                i <= before.links.len(),
                self@ == (TaskState { links: self@.links, ..before }),
                self@.links.len() == before.links.len(),
                forall|k: int| 0 <= k < i ==> self@.links[k] == mapped(before.links[k], f),
                forall|k: int| i <= k < before.links.len() ==> self@.links[k] == before.links[k],
            decreases before.links.len() - i,
        {
            let ghost entries = self.links@;
            let ghost at = self@;
            if let Some(link) = &mut self.links[i] {
                link.increase_limit(single, all_slow, good_ping, coming_seq);
            }
            proof {
                lemma_link_entries_update(entries, i as int, self.links@[i as int]);
                assert(self.links@ =~= entries.update(i as int, self.links@[i as int]));
                assert(link_entry(self.links@[i as int]) == mapped(at.links[i as int], f));
            }
            i += 1;
        }
        assert(self@.links =~= before.links.map_values(|l: Option<LinkState>| mapped(l, f)));
    }

    /// Starts counting consecutive increases of the limits anew.
    fn reset_consecutive(&mut self)
        ensures
            final(self)@ == old(self)@.map_links(|l: LinkState| l.consecutive_reset()),
    {
        let ghost before = self@;
        let ghost f = |l: LinkState| l.consecutive_reset();
        let mut i: usize = 0;
        while i < self.links.len()
            invariant
                before == old(self)@,
                f == (|l: LinkState| l.consecutive_reset()),
                i <= before.links.len(),
                self@ == (TaskState { links: self@.links, ..before }),
                self@.links.len() == before.links.len(),
                forall|k: int| 0 <= k < i ==> self@.links[k] == mapped(before.links[k], f),
                forall|k: int| i <= k < before.links.len() ==> self@.links[k] == before.links[k],
            decreases before.links.len() - i,
        {
            let ghost entries = self.links@;
            let ghost at = self@;
            if let Some(link) = &mut self.links[i] {
                link.reset_consecutive();
            }
            proof {
                lemma_link_entries_update(entries, i as int, self.links@[i as int]);
                assert(self.links@ =~= entries.update(i as int, self.links@[i as int]));
                assert(link_entry(self.links@[i as int]) == mapped(at.links[i as int], f));
            }
            i += 1;
        }
        assert(self@.links =~= before.links.map_values(|l: Option<LinkState>| mapped(l, f)));
    }

    /// Whether every working link exceeds its maximum ping, divided by `divisor`.
    fn all_slow(&self, divisor: u64) -> (r: bool)
        requires
            divisor > 0,
        ensures
            r == self@.all_slow(divisor),
    {
        let mut i: usize = 0;
        while i < self.links.len()
            invariant
                divisor > 0,
                i <= self.links@.len(),
                forall|k: int|
                    #![trigger self@.has(k)]
                    self@.has(k) && k < i && self@.link(k).is_working() ==> self@.link(k).not_within_max_ping(divisor),
            decreases self.links@.len() - i,
        {
            if let Some(link) = &self.links[i] {
                if link.is_working() && !link.not_within_max_ping(divisor) {
                    assert(self@.has(i as int));
                    return false;
                }
            }
            i += 1;
        }
        true
    }

    /// Number of working links.
    fn working_link_count(&self) -> (r: usize)
        ensures
            r == working_count(self@.links),
    {
        let ghost links = self@.links;
        let mut n: usize = 0;
        let mut i: usize = 0;
        assert(links.take(0) =~= Seq::empty());
        while i < self.links.len()
            invariant
                links == self@.links,
                i <= links.len(),
                n <= i,
                n == working_count(links.take(i as int)),
            decreases links.len() - i,
        {
            assert(links.take(i + 1).drop_last() =~= links.take(i as int));
            assert(links.take(i + 1).last() == links[i as int]);
            if let Some(link) = &self.links[i] {
                if link.is_working() {
                    n += 1;
                }
            }
            i += 1;
        }
        assert(links.take(i as int) =~= links);
        n
    }

    /// Whether data can be sent immediately over any link.
    fn is_link_avail(&self) -> (r: bool)
        ensures
            r == self@.link_avail(),
    {
        let mut i: usize = 0;
        while i < self.links.len()
            invariant
                i <= self.links@.len(),
                forall|k: int| #![trigger self@.has(k)] self@.has(k) && k < i ==> !self@.link(k).is_available(),
            decreases self.links@.len() - i,
        {
            if let Some(link) = &self.links[i] {
                if link.is_available() {
                    assert(self@.has(i as int));
                    return true;
                }
            }
            i += 1;
        }
        false
    }

    /// Whether data is available for sending.
    fn is_send_data_avail(&self) -> (r: bool)
        ensures
            r == self@.send_data_avail(),
    {
        let peeked: bool = match &self.write_rx {
            Some(rx) => rx.peeked.is_some(),
            None => false,
        };
        peeked || self.tx.resend_queue.len() > 0
    }

    /// Sequence number of the packet that is sent next.
    fn coming_seq(&self) -> (r: SeqNum)
        ensures
            r == self@.coming_seq(),
    {
        if self.tx.resend_queue.len() > 0 {
            self.tx.resend_queue[0]
        } else {
            self.tx.tx_seq
        }
    }

    /// Amount of unconsumable data that must not be exceeded.
    fn unconsumable_limit(&self, remote_recv_buffer: u32) -> (r: u32)
        ensures
            r == self@.unconsumable_limit(remote_recv_buffer),
    {
        if self.info.cfg.send_buffer < remote_recv_buffer {
            self.info.cfg.send_buffer
        } else {
            remote_recv_buffer
        }
    }

    /// Decreases the limit of a link because of too much unconsumable data.
    fn decrease_guilty(&mut self, id: usize, hard: bool, now: Instant)
        requires
            old(self)@.has(id as int),
        ensures
            ({
                let s = old(self)@;
                let link = s.link(id as int);
                final(self)@ == if hard {
                    s.set_link(id as int, link.halved(s.coming_seq())).with_overrun(SendOverrun::Hard, Some(now))
                } else {
                    s.set_link(id as int, link.slightly_decreased(s.coming_seq())).with_overrun(
                        SendOverrun::Soft,
                        Some(now),
                    )
                }
            }),
    {
        let ghost entries = self.links@;
        let coming_seq: SeqNum = self.coming_seq();
        if let Some(link) = &mut self.links[id] {
            if hard {
                link.halve_limit(coming_seq);
            } else {
                link.decrease_limit(coming_seq);
            }
        }
        proof {
            lemma_link_replaced(entries, self.links@, id as int, self.links@[id as int]->0);
        }
        self.times.tx_overrun = if hard {
            SendOverrun::Hard
        } else {
            SendOverrun::Soft
        };
        self.times.tx_overrun_since = Some(now);
    }

    /// Handles too much unconsumable data.
    fn handle_overrun(&mut self, remote_recv_buffer: u32, now: Instant)
        requires
            old(self)@.wf(),
        ensures
            final(self)@ == old(self)@.overrun_handled(remote_recv_buffer, now),
    {
        proof {
            lemma_oldest_unconfirmed(self@);
        }
        let limit: u32 = self.unconsumable_limit(remote_recv_buffer);
        let soft: bool = self.tx.txed_unconsumable > (limit / 3) as u64;
        let hard: bool = self.tx.txed_unconsumable > limit as u64 * 3 / 4;

        // If too much data is unconsumable, decrease unacked data limit of guilty link,
        // which is most probably the link used to send the oldest still unconfirmed data.
        if (soft && self.times.tx_overrun == SendOverrun::Armed) || (hard && self.times.tx_overrun
            != SendOverrun::Hard) {
            if let Some(u) = self.tx.oldest_unconfirmed() {
                self.decrease_guilty(u.link_id, hard, now);
            }
        } else if self.times.tx_overrun != SendOverrun::Armed && !soft && !hard {
            self.times.tx_overrun = SendOverrun::Armed;
            self.times.tx_overrun_since = None;
        }
    }

    /// Re-arms send overrun handling, if it is blocked for too long.
    fn rearm_overrun(&mut self, now: Instant)
        ensures
            final(self)@ == old(self)@.overrun_rearmed(now),
    {
        if let Some(since) = self.times.tx_overrun_since {
            let elapsed: Duration = since.elapsed(now);
            if elapsed.nanos >= NANOS_PER_SEC {
                self.times.tx_overrun = SendOverrun::Armed;
                self.times.tx_overrun_since = None;
            }
        }
    }

    /// Decreases the limits of links that approach their maximum ping, unless all links do.
    ///
    /// Returns whether all links do.
    fn check_max_ping(&mut self) -> (r: bool)
        ensures
            final(self)@ == old(self)@.max_ping_limited(),
            r == old(self)@.all_slow(2),
    {
        let coming_seq: SeqNum = self.coming_seq();
        let all_slow: bool = self.all_slow(2);
        if !all_slow {
            self.limit_by_max_ping(coming_seq);
        }
        all_slow
    }

    /// Decreases the limits of links with a ping above the allowable ping spread.
    ///
    /// Returns the good ping, if a ping spread limit is configured.
    fn check_spread(&mut self) -> (r: Option<u128>)
        ensures
            final(self)@ == old(self)@.spread_limited(),
            r == match old(self)@.ping_spread_limits() {
                Some((_, good_ping)) => Some(good_ping),
                None => None,
            },
    {
        let coming_seq: SeqNum = self.coming_seq();
        match self.ping_spread_limits() {
            Some((limit_ping, good_ping)) => {
                self.limit_by_spread(limit_ping, coming_seq);
                Some(good_ping)
            },
            None => None,
        }
    }

    /// Increases the limits of links, if they are what prevents data from being sent.
    fn check_blocked(&mut self, all_slow: bool, good_ping: Option<u128>)
        ensures
            final(self)@ == old(self)@.limits_increased(all_slow, good_ping),
    {
        let coming_seq: SeqNum = self.coming_seq();
        let single: bool = self.working_link_count() == 1;
        if self.is_send_data_avail() && !self.is_link_avail() {
            self.increase_limits(single, all_slow, good_ping, coming_seq);
        }
    }

    /// Resets the number of consecutive increases, unless there is little unconsumable data.
    fn check_low_level(&mut self, remote_recv_buffer: u32)
        ensures
            final(self)@ == old(self)@.consecutive_reset(remote_recv_buffer),
    {
        let limit: u32 = self.unconsumable_limit(remote_recv_buffer);
        if self.tx.txed_unconsumable >= (limit / 4) as u64 {
            self.reset_consecutive();
        }
    }

    /// Adjusts the link transmission buffer limits to ensure that no link stalls the channel.
    pub fn adjust_link_tx_limits(&mut self, now: Instant)
        requires
            old(self)@.wf(),
        ensures
            final(self)@ == old(self)@.adjust_limits(now),
            final(self)@.wf(),
            forall|i: int|
                #![trigger final(self)@.has(i)]
                final(self)@.has(i) ==> final(self)@.link(i).raised_within_maximum(old(self)@.link(i)),
    {
        proof {
            reveal(TaskState::adjust_limits);
            lemma_adjust_limits_wf(self@, now);
            assert forall|i: int| #![trigger self@.adjust_limits(now).has(i)] self@.adjust_limits(now).has(
                i,
            ) implies self@.adjust_limits(now).link(i).raised_within_maximum(self@.link(i)) by {
                law_raised_limit_within_maximum(self@, now, i);
            }
        }
        let remote_recv_buffer: u32 = match self.remote_recv_buffer() {
            Some(size) => size,
            None => return ,
        };
        self.handle_overrun(remote_recv_buffer, now);
        self.rearm_overrun(now);
        let all_slow: bool = self.check_max_ping();
        let good_ping: Option<u128> = self.check_spread();
        self.check_blocked(all_slow, good_ping);
        self.check_low_level(remote_recv_buffer);
    }

    /// Whether the ping of every working link is above the specified value.
    fn all_above(&self, ping: Duration) -> (r: bool)
        ensures
            r == self@.all_above(ping),
    {
        let mut i: usize = 0;
        while i < self.links.len()
            invariant
                i <= self.links.len(),
                forall|k: int|
                    #![trigger self@.has(k)]
                    self@.has(k) && k < i && self@.link(k).is_working() ==> self@.link(k).ping.roundtrip.nanos
                        > ping.nanos,
            decreases self.links.len() - i,
        {
            if let Some(link) = &self.links[i] {
                if link.is_working() && link.ping.roundtrip.nanos <= ping.nanos {
                    assert(self@.has(i as int));
                    return false;
                }
            }
            i += 1;
        }
        true
    }

    /// Whether a link is confirmed and has a ping above its maximum, while not all links have a
    /// ping above that value.
    fn above_max_ping(&self, link: &LinkInt) -> (r: bool)
        ensures
            r == self@.above_max_ping(link@),
    {
        match link.link_cfg().max_ping {
            Some(max_ping) => link.status.unconfirmed.is_none() && link.ping.roundtrip.nanos > max_ping.nanos
                && !self.all_above(max_ping),
            None => false,
        }
    }

    /// Indices of the links with a ping above their maximum.
    fn ids_over_max_ping(&self) -> (r: Vec<usize>)
        ensures
            r@ == ids_where(self@.links, |l: LinkState| self@.above_max_ping(l)),
    {
        let ghost links = self@.links;
        let ghost cond = |l: LinkState| self@.above_max_ping(l);
        let mut ids: Vec<usize> = Vec::new();
        let mut i: usize = 0;
        assert(links.take(0) =~= Seq::empty());
        while i < self.links.len()
            invariant
                links == self@.links,
                cond == (|l: LinkState| self@.above_max_ping(l)),
                i <= links.len(),
                ids@ == ids_where(links.take(i as int), cond),
            decreases links.len() - i,
        {
            assert(links.take(i + 1).drop_last() =~= links.take(i as int));
            assert(links.take(i + 1).last() == links[i as int]);
            if let Some(link) = &self.links[i] {
                if self.above_max_ping(link) {
                    ids.push(i);
                }
            }
            i += 1;
        }
        assert(links.take(i as int) =~= links);
        ids
    }

    /// Indices of the confirmed links whose ping is more than twice above the ping spread limit.
    fn ids_over_spread(&self, limit_ping: u128) -> (r: Vec<usize>)
        requires
            2 * limit_ping <= u128::MAX,
        ensures
            r@ == ids_where(
                self@.links,
                |l: LinkState|
                    l.status.unconfirmed is None && l.ping.roundtrip.nanos > 2 * limit_ping
                        && l.has_reliable_roundtrip(),
            ),
    {
        let ghost links = self@.links;
        let ghost cond = |l: LinkState|
            l.status.unconfirmed is None && l.ping.roundtrip.nanos > 2 * limit_ping && l.has_reliable_roundtrip();
        let mut ids: Vec<usize> = Vec::new();
        let mut i: usize = 0;
        assert(links.take(0) =~= Seq::empty());
        while i < self.links.len()
            invariant
                2 * limit_ping <= u128::MAX,
                links == self@.links,
                cond == (|l: LinkState|
                    l.status.unconfirmed is None && l.ping.roundtrip.nanos > 2 * limit_ping
                        && l.has_reliable_roundtrip()),
                i <= links.len(),
                ids@ == ids_where(links.take(i as int), cond),
            decreases links.len() - i,
        {
            assert(links.take(i + 1).drop_last() =~= links.take(i as int));
            assert(links.take(i + 1).last() == links[i as int]);
            if let Some(link) = &self.links[i] {
                if link.status.unconfirmed.is_none() && link.ping.roundtrip.nanos as u128 > 2 * limit_ping
                    && link.has_reliable_roundtrip() {
                    ids.push(i);
                }
            }
            i += 1;
        }
        assert(links.take(i as int) =~= links);
        ids
    }

    /// Unconfirms several links one after the other.
    fn unconfirm_links(&mut self, ids: &Vec<usize>, reason: NotWorkingReason, now: Instant)
        requires
            old(self)@.wf(),
            forall|k: int| 0 <= k < ids@.len() ==> old(self)@.has(#[trigger] ids@[k] as int),
        ensures
            final(self)@ == old(self)@.unconfirm_all(ids@, reason, now),
            final(self)@.wf(),
    {
        let mut i: usize = 0;
        assert(ids@.skip(0) =~= ids@);
        while i < ids.len()
            invariant
                i <= ids@.len(),
                self@.wf(),
                forall|k: int| 0 <= k < ids@.len() ==> self@.has(#[trigger] ids@[k] as int),
                self@.unconfirm_all(ids@.skip(i as int), reason, now) == old(self)@.unconfirm_all(ids@, reason, now),
            decreases ids@.len() - i,
        {
            let ghost at = self@;
            assert(ids@.skip(i as int).drop_first() =~= ids@.skip(i + 1));
            assert(at.has(ids@[i as int] as int));
            self.unconfirm_link(ids[i], reason, now);
            proof {
                lemma_unconfirm_wf(at, ids@[i as int], reason, now);
                assert forall|k: int| 0 <= k < ids@.len() implies self@.has(#[trigger] ids@[k] as int) by {
                    assert(at.has(ids@[k] as int));
                }
            }
            i += 1;
        }
    }

    /// Checks that links behave within limits and unconfirm links that do not.
    pub fn check_link_limits(&mut self, now: Instant)
        requires
            old(self)@.wf(),
        ensures
            final(self)@ == old(self)@.check_limits(now),
            final(self)@.wf(),
    {
        let n: usize = self.links.len();
        proof {
            lemma_slow_ids(self@);
        }
        // Check for link ping exceeding configured limit.
        let mut to_unconfirm: Vec<usize> = self.ids_over_max_ping();

        // Check for link ping exceeds ping spread limit.
        let spread: Option<(u128, u128)> = self.ping_spread_limits();
        if let Some((limit_ping, _)) = spread {
            assert(2 * limit_ping <= u128::MAX) by {
                lemma_limit_ping_bound(self@);
            }
            let mut over_spread: Vec<usize> = self.ids_over_spread(limit_ping);
            to_unconfirm.append(&mut over_spread);
        }
        assert(to_unconfirm@ =~= self@.slow_ids());
        self.unconfirm_links(&to_unconfirm, NotWorkingReason::MaxPingExceeded, now);
    }
}

/// The ping spread limit is far below the largest representable number.
pub proof fn lemma_limit_ping_bound(s: TaskState)
    ensures
        s.ping_spread_limits() matches Some((limit_ping, _)) ==> 2 * limit_ping <= u128::MAX,
{
    match (crate::agg::testing::min_ping(s.links), s.info.cfg.link_max_ping_spread) {
        (Some(ping), Some(spread)) => {
            assert(ping * spread <= 0xffff_ffff_ffff_ffff * 0xffff_ffff) by (nonlinear_arith)
                requires
                    0 <= ping <= 0xffff_ffff_ffff_ffff,
                    0 <= spread <= 0xffff_ffff,
            ;
        },
        _ => {},
    }
}

} // verus!
