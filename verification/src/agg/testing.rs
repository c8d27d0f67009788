//! Testing of links.

use crate::agg::link_int::{LinkInt, LinkPinging, LinkState, LinkStatus, LinkTest, TestRequest};
use crate::agg::send::lemma_link_replaced;
use crate::agg::state::{Task, TaskState};
use crate::agg::state::{lemma_not_idle_wf, lemma_set_link_wf, lemma_wf_link};
use crate::control::NotWorkingReason;
use crate::time::{duration_between, Duration, Instant};
use vstd::prelude::*;

verus! {

/// Number of roundtrip estimates to treat as reliable.
pub const RELIABLE_ROUNDTRIP_ESTIMATES: usize = 10;

/// Outcome of a testing step of a link.
pub struct TestStep {
    /// Link after the step.
    pub link: LinkState,
    /// Point in time, in nanoseconds, when next testing step is due.
    pub due: Option<u128>,
    /// Whether the link is now confirmed and reports when it becomes ready.
    pub recovered: bool,
}

/// The smaller of two amounts.
pub open spec fn min_usize(a: usize, b: usize) -> usize {
    if a < b {
        a
    } else {
        b
    }
}

impl LinkState {
    /// Whether the roundtrip time has been measured often enough.
    pub open spec fn has_reliable_roundtrip(self) -> bool {
        self.ping.roundtrip_estimates matches Some(n) && n >= RELIABLE_ROUNDTRIP_ESTIMATES
    }

    /// Whether the link is believed to be working: it is confirmed and not blocked.
    pub open spec fn is_working(self) -> bool {
        self.status.unconfirmed is None && !self.is_blocked()
    }

    /// Whether the ping of the link is not within its maximum, divided by `divisor`.
    ///
    /// A link without a maximum ping has no value to be within.
    pub open spec fn not_within_max_ping(self, divisor: u64) -> bool {
        match self.eff_cfg().max_ping {
            None => true,
            Some(max_ping) => self.ping.roundtrip.nanos > max_ping.nanos / divisor,
        }
    }

    /// Link with other status.
    pub open spec fn with_unconfirmed(self, unconfirmed: Option<(Instant, NotWorkingReason)>) -> LinkState {
        LinkState { status: LinkStatus { unconfirmed, ..self.status }, ..self }
    }

    /// Link with other test status.
    pub open spec fn with_test(self, test: LinkTest) -> LinkState {
        LinkState { status: LinkStatus { test, ..self.status }, ..self }
    }

    /// Link that may be tested again, if enough time has passed since its last failed test.
    pub open spec fn retried(self, now: Instant) -> LinkState {
        match self.status.test {
            LinkTest::Failed(when) if duration_between(when, now).nanos >= self.eff_cfg().retest_interval.nanos =>
                self.with_test(LinkTest::Inactive),
            _ => self,
        }
    }

    /// Amount of test data to send over the link.
    pub open spec fn test_data_limit(self) -> usize {
        let cfg = self.eff_cfg();
        let limit = if cfg.max_ping is Some {
            cfg.unacked_init
        } else if cfg.unacked_limit < self.info.cfg.send_buffer {
            cfg.unacked_limit
        } else {
            self.info.cfg.send_buffer as usize
        };
        min_usize(limit, cfg.test_data_limit)
    }

    /// Link on which a test has been started.
    pub open spec fn test_started(self, now: Instant) -> LinkState {
        let request = TestRequest { packet_size: self.info.cfg.io_write_size, data_limit: self.test_data_limit() };
        let l = self.test_data_requested(request, now);
        LinkState { ping: LinkPinging { send_ping: true, ..l.ping }, ..l.with_test(LinkTest::InProgress) }
    }

    /// Link that is working again.
    pub open spec fn recovered(self, now: Instant) -> LinkState {
        self.with_unconfirmed(None).with_test(LinkTest::Inactive).reporting_ready(now)
    }

    /// Testing step of a link that is not being tested.
    ///
    /// An unconfirmed link over which nothing is outstanding is tested. It is used without testing,
    /// if only an acknowledgement was late and no test is configured in that case, or if it is new and
    /// no test data may be sent. A blocked link is not tested; to prevent it from being disconnected the
    /// time when it was unconfirmed is updated.
    pub open spec fn inactive_step(self, now: Instant) -> TestStep {
        let none = TestStep { link: self, due: None, recovered: false };
        match self.status.unconfirmed {
            Some((since, reason)) if self.tx.tx_polling is None && self.ping.current_ping_sent is None
                && self.unacked.txed_unacked is None => if reason != NotWorkingReason::AckTimeout
                || self.eff_cfg().test_after_ack_timeout {
                if self.is_blocked() {
                    let half = self.eff_cfg().non_working_timeout.half();
                    let postponed = duration_between(since, now).nanos >= half.nanos;
                    TestStep {
                        link: if postponed {
                            self.with_unconfirmed(Some((now, reason)))
                        } else {
                            self
                        },
                        due: Some((if postponed { now } else { since }).plus(half)),
                        recovered: false,
                    }
                } else if reason == NotWorkingReason::New && self.eff_cfg().test_data_limit == 0 {
                    TestStep { link: self.recovered(now), due: None, recovered: true }
                } else {
                    TestStep { link: self.test_started(now), due: None, recovered: false }
                }
            } else {
                TestStep { link: self.recovered(now), due: None, recovered: true }
            },
            _ => none,
        }
    }

    /// Testing step of a link that is being tested.
    ///
    /// The test succeeds if the ping sent after the test data is answered within the limit.
    pub open spec fn in_progress_step(self, roundtrip_limit: u128, now: Instant) -> TestStep {
        if self.ping.current_ping_sent is None && !self.ping.send_ping {
            if self.ping.roundtrip.nanos <= roundtrip_limit {
                TestStep { link: self.recovered(now), due: None, recovered: true }
            } else {
                let since = match self.status.unconfirmed {
                    Some((since, _)) => since,
                    None => now,
                };
                TestStep {
                    link: self.with_test(LinkTest::Failed(now)).with_unconfirmed(
                        Some((since, NotWorkingReason::TestFailed)),
                    ),
                    due: Some(now.plus(self.eff_cfg().retest_interval)),
                    recovered: false,
                }
            }
        } else {
            TestStep { link: self, due: None, recovered: false }
        }
    }

    /// Testing step of a link.
    pub open spec fn test_step(self, roundtrip_limit: u128, now: Instant) -> TestStep {
        let link = self.retried(now);
        match link.status.test {
            LinkTest::Inactive => link.inactive_step(now),
            LinkTest::InProgress => link.in_progress_step(roundtrip_limit, now),
            LinkTest::Failed(when) => TestStep {
                link,
                due: Some(when.plus(link.eff_cfg().retest_interval)),
                recovered: false,
            },
        }
    }
}

/// A testing step keeps the invariant of the link and does not touch what is unacknowledged.
pub proof fn lemma_test_step(l: LinkState, roundtrip_limit: u128, now: Instant)
    requires
        l.wf(),
    ensures
        ({
            let step = l.test_step(roundtrip_limit, now);
            &&& step.link.wf()
            &&& step.link.info == l.info
            &&& step.link.unacked == l.unacked
            &&& (l.status.unconfirmed is None ==> step.link == l)
        }),
{
}

impl LinkInt {
    /// Whether the roundtrip time has been measured often enough.
    pub fn has_reliable_roundtrip(&self) -> (r: bool)
        ensures
            r == self@.has_reliable_roundtrip(),
    {
        match self.ping.roundtrip_estimates {
            Some(n) => n >= RELIABLE_ROUNDTRIP_ESTIMATES,
            None => false,
        }
    }

    /// Whether the link is believed to be working.
    pub fn is_working(&self) -> (r: bool)
        ensures
            r == self@.is_working(),
    {
        self.status.unconfirmed.is_none() && !self.is_blocked()
    }

    /// Whether the ping of the link is not within its maximum, divided by `divisor`.
    ///
    /// A link without a maximum ping has no value to be within.
    pub fn not_within_max_ping(&self, divisor: u64) -> (r: bool)
        requires
            divisor > 0,
        ensures
            r == self@.not_within_max_ping(divisor),
    {
        match self.link_cfg().max_ping {
            None => true,
            Some(max_ping) => self.ping.roundtrip.nanos > max_ping.nanos / divisor,
        }
    }

    /// Allows the link to be tested again, if enough time has passed since its last failed test.
    fn retry(&mut self, now: Instant)
        ensures
            final(self)@ == old(self)@.retried(now),
    {
        if let LinkTest::Failed(when) = self.status.test {
            let elapsed: Duration = when.elapsed(now);
            if elapsed.nanos >= self.link_cfg().retest_interval.nanos {
                self.status.test = LinkTest::Inactive;
            }
        }
    }

    /// Amount of test data to send over the link.
    fn test_data_limit(&self) -> (r: usize)
        ensures
            r == self@.test_data_limit(),
    {
        let send_buffer: usize = self.info.cfg.send_buffer as usize;
        let cfg = self.link_cfg();
        let limit: usize = if cfg.max_ping.is_some() {
            cfg.unacked_init
        } else if cfg.unacked_limit < send_buffer {
            cfg.unacked_limit
        } else {
            send_buffer
        };
        if limit < cfg.test_data_limit {
            limit
        } else {
            cfg.test_data_limit
        }
    }

    /// Starts a test of the link.
    fn start_test(&mut self, now: Instant)
        ensures
            final(self)@ == old(self)@.test_started(now),
    {
        let request: TestRequest = TestRequest {
            packet_size: self.info.cfg.io_write_size,
            data_limit: self.test_data_limit(),
        };
        self.send_test_data(request, now);
        self.ping.send_ping = true;
        self.status.test = LinkTest::InProgress;
    }

    /// Uses the link again.
    fn recover(&mut self, now: Instant)
        ensures
            final(self)@ == old(self)@.recovered(now),
    {
        self.status.unconfirmed = None;
        self.status.test = LinkTest::Inactive;
        self.report_ready(now);
    }

    /// Performs a testing step of a link that is not being tested.
    fn inactive_step(&mut self, now: Instant) -> (r: (Option<u128>, bool))
        requires
            old(self)@.status.test == LinkTest::Inactive,
        ensures
            ({
                let step = old(self)@.inactive_step(now);
                final(self)@ == step.link && r == (step.due, step.recovered)
            }),
    {
        if self.tx.tx_polling.is_some() || self.ping.current_ping_sent.is_some() || self.has_outstanding_ack() {
            return (None, false);
        }
        match self.status.unconfirmed {
            None => (None, false),
            Some((since, reason)) => {
                if reason != NotWorkingReason::AckTimeout || self.link_cfg().test_after_ack_timeout {
                    if self.is_blocked() {
                        let half: Duration = Duration { nanos: self.link_cfg().non_working_timeout.nanos / 2 };
                        let elapsed: Duration = since.elapsed(now);
                        if elapsed.nanos >= half.nanos {
                            self.status.unconfirmed = Some((now, reason));
                            (Some(now.after(half)), false)
                        } else {
                            (Some(since.after(half)), false)
                        }
                    } else if reason == NotWorkingReason::New && self.link_cfg().test_data_limit == 0 {
                        self.recover(now);
                        (None, true)
                    } else {
                        self.start_test(now);
                        (None, false)
                    }
                } else {
                    self.recover(now);
                    (None, true)
                }
            },
        }
    }

    /// Performs a testing step of a link that is being tested.
    fn in_progress_step(&mut self, roundtrip_limit: u128, now: Instant) -> (r: (Option<u128>, bool))
        ensures
            ({
                let step = old(self)@.in_progress_step(roundtrip_limit, now);
                final(self)@ == step.link && r == (step.due, step.recovered)
            }),
    {
        if self.ping.current_ping_sent.is_some() || self.ping.send_ping {
            return (None, false);
        }
        if self.ping.roundtrip.nanos as u128 <= roundtrip_limit {
            // Ping response arrived quickly enough, thus mark link as confirmed.
            self.recover(now);
            (None, true)
        } else {
            // Link is too slow, schedule retest.
            let since: Instant = match self.status.unconfirmed {
                Some((since, _)) => since,
                None => now,
            };
            self.status.test = LinkTest::Failed(now);
            self.status.unconfirmed = Some((since, NotWorkingReason::TestFailed));
            (Some(now.after(self.link_cfg().retest_interval)), false)
        }
    }

    /// Considers activating a link that is unconfirmed.
    ///
    /// Returns the time when next testing step is due and whether the link is working again.
    pub fn testing_step(&mut self, roundtrip_limit: u128, now: Instant) -> (r: (Option<u128>, bool))
        ensures
            ({
                let step = old(self)@.test_step(roundtrip_limit, now);
                final(self)@ == step.link && r == (step.due, step.recovered)
            }),
    {
        self.retry(now);
        match self.status.test {
            LinkTest::Inactive => self.inactive_step(now),
            LinkTest::InProgress => self.in_progress_step(roundtrip_limit, now),
            LinkTest::Failed(when) => (Some(when.after(self.link_cfg().retest_interval)), false),
        }
    }
}

/// The smaller of two optional amounts.
pub open spec fn min_option(a: Option<u64>, b: Option<u64>) -> Option<u64> {
    match (a, b) {
        (Some(x), Some(y)) => Some(if x < y { x } else { y }),
        (Some(_), None) => a,
        _ => b,
    }
}

/// Ping of a link, if it is working and the ping has been measured often enough.
pub open spec fn reliable_ping(link: Option<LinkState>) -> Option<u64> {
    match link {
        Some(l) if l.is_working() && l.has_reliable_roundtrip() => Some(l.ping.roundtrip.nanos),
        _ => None,
    }
}

/// The lowest reliable ping of all links.
pub open spec fn min_ping(links: Seq<Option<LinkState>>) -> Option<u64>
    decreases links.len(),
{
    if links.len() == 0 {
        None
    } else {
        min_option(min_ping(links.drop_last()), reliable_ping(links.last()))
    }
}

impl TaskState {
    /// The limit ping and good ping, in nanoseconds, as given by the link ping spread limits, if configured.
    ///
    /// The limit ping is the lowest ping times the maximum spread. The good ping lies
    /// three quarters of the way from the lowest ping to the limit ping.
    pub open spec fn ping_spread_limits(self) -> Option<(u128, u128)> {
        match (min_ping(self.links), self.info.cfg.link_max_ping_spread) {
            (Some(ping), Some(spread)) => Some(
                ((ping * spread) as u128, ((ping + 3 * (ping * spread)) / 4) as u128),
            ),
            _ => None,
        }
    }

    /// Whether the ping of every other working link is above the specified value.
    pub open spec fn others_above(self, id: int, ping: Duration) -> bool {
        forall|i: int|
            #![trigger self.has(i)]
            self.has(i) && i != id && self.link(i).is_working() ==> self.link(i).ping.roundtrip.nanos > ping.nanos
    }

    /// The ping, in nanoseconds, that a link must not exceed to pass its test.
    ///
    /// The maximum ping of the link does not matter, if all other links have a ping above it.
    pub open spec fn test_roundtrip_limit(self, id: int) -> u128 {
        let cfg = self.link(id).eff_cfg();
        let a = (cfg.ack_timeout_max.nanos / 2) as u128;
        let b = match cfg.max_ping {
            Some(max_ping) if !self.others_above(id, max_ping) && max_ping.nanos < a => max_ping.nanos as u128,
            _ => a,
        };
        match self.ping_spread_limits() {
            Some((limit_ping, _)) if limit_ping < b => limit_ping,
            _ => b,
        }
    }

    /// State after considering activating a link that is unconfirmed.
    pub open spec fn tested(self, id: usize, now: Instant) -> TaskState {
        if self.has(id as int) {
            let step = self.link(id as int).test_step(self.test_roundtrip_limit(id as int), now);
            let s = self.set_link(id as int, step.link);
            if step.recovered {
                s.not_idle(id)
            } else {
                s
            }
        } else {
            self
        }
    }

    /// Point in time, in nanoseconds, when the next testing step of a link is due.
    pub open spec fn test_due(self, id: usize, now: Instant) -> Option<u128> {
        if self.has(id as int) {
            self.link(id as int).test_step(self.test_roundtrip_limit(id as int), now).due
        } else {
            None
        }
    }
}

/// A testing step keeps the invariant.
pub proof fn lemma_tested_wf(s: TaskState, id: usize, now: Instant)
    requires
        s.wf(),
    ensures
        s.tested(id, now).wf(),
        s.tested(id, now).tx == s.tx,
        s.tested(id, now).rx == s.rx,
        s.tested(id, now).info == s.info,
        s.tested(id, now).chan == s.chan,
        s.tested(id, now).links.len() == s.links.len(),
        forall|i: int| #![trigger s.tested(id, now).has(i)] s.tested(id, now).has(i) == s.has(i),
{
    if s.has(id as int) {
        let limit = s.test_roundtrip_limit(id as int);
        let step = s.link(id as int).test_step(limit, now);
        lemma_wf_link(s, id as int);
        lemma_test_step(s.link(id as int), limit, now);
        lemma_set_link_wf(s, id as int, step.link);
        lemma_not_idle_wf(s.set_link(id as int, step.link), id);
    }
}

impl Task {
    /// Returns the limit ping and good ping, in nanoseconds, as given by the link ping spread limits,
    /// if configured.
    pub fn ping_spread_limits(&self) -> (r: Option<(u128, u128)>)
        ensures
            r == self@.ping_spread_limits(),
    {
        let mut lowest: Option<u64> = None;
        let ghost links = self@.links;
        let mut i: usize = 0;
        assert(links.take(0) =~= Seq::empty());
        while i < self.links.len()
            invariant
                links == self@.links,
                i <= links.len(),
                lowest == min_ping(links.take(i as int)),
            decreases links.len() - i,
        {
            assert(links.take(i + 1).drop_last() =~= links.take(i as int));
            assert(links.take(i + 1).last() == links[i as int]);
            if let Some(link) = &self.links[i] {
                if link.is_working() && link.has_reliable_roundtrip() {
                    let ping: u64 = link.ping.roundtrip.nanos;
                    lowest = match lowest {
                        Some(l) => Some(if l < ping { l } else { ping }),
                        None => Some(ping),
                    };
                }
            }
            i += 1;
        }
        assert(links.take(i as int) =~= links);
        match (lowest, self.info.cfg.link_max_ping_spread) {
            (Some(ping), Some(spread)) => {
                assert(ping * spread <= 0xffff_ffff_ffff_ffff * 0xffff_ffff) by (nonlinear_arith)
                    requires
                        0 <= ping <= 0xffff_ffff_ffff_ffff,
                        0 <= spread <= 0xffff_ffff,
                ;
                let limit_ping: u128 = ping as u128 * spread as u128;
                let good_ping: u128 = (ping as u128 + 3 * limit_ping) / 4;
                Some((limit_ping, good_ping))
            },
            _ => None,
        }
    }

    /// Whether the ping of every other working link is above the specified value.
    fn others_above(&self, id: usize, ping: Duration) -> (r: bool)
        ensures
            r == self@.others_above(id as int, ping),
    {
        let mut i: usize = 0;
        while i < self.links.len()
            invariant
                i <= self.links@.len(),
                forall|k: int|
                    #![trigger self@.has(k)]
                    self@.has(k) && k < i && k != id && self@.link(k).is_working() ==> self@.link(
                        k,
                    ).ping.roundtrip.nanos > ping.nanos,
            decreases self.links@.len() - i,
        {
            if let Some(link) = &self.links[i] {
                if i != id && link.is_working() && link.ping.roundtrip.nanos <= ping.nanos {
                    assert(self@.has(i as int));
                    return false;
                }
            }
            i += 1;
        }
        true
    }

    /// The ping, in nanoseconds, that a link must not exceed to pass its test.
    fn test_roundtrip_limit(&self, id: usize) -> (r: u128)
        requires
            self@.has(id as int),
        ensures
            r == self@.test_roundtrip_limit(id as int),
    {
        let spread: Option<(u128, u128)> = self.ping_spread_limits();
        let mut limit: u128 = 0;
        if let Some(link) = &self.links[id] {
            limit = (link.link_cfg().ack_timeout_max.nanos / 2) as u128;
            if let Some(max_ping) = link.link_cfg().max_ping {
                if !self.others_above(id, max_ping) && (max_ping.nanos as u128) < limit {
                    limit = max_ping.nanos as u128;
                }
            }
        }
        if let Some((limit_ping, _)) = spread {
            if limit_ping < limit {
                limit = limit_ping;
            }
        }
        limit
    }

    /// Considers activating a link that has been disabled due to confirmation timeout.
    ///
    /// Returns time, in nanoseconds, when next testing step is due.
    pub fn link_testing_step(&mut self, id: usize, now: Instant) -> (r: Option<u128>)
        requires
            old(self)@.wf(),
        ensures
            final(self)@ == old(self)@.tested(id, now),
            r == old(self)@.test_due(id, now),
            final(self)@.wf(),
    {
        proof {
            lemma_tested_wf(self@, id, now);
        }
        if id >= self.links.len() || self.links[id].is_none() {
            return None;
        }
        let ghost before = self@;
        assert(before.has(id as int));
        let limit: u128 = self.test_roundtrip_limit(id);
        let ghost entries = self.links@;
        let mut due: Option<u128> = None;
        let mut recovered: bool = false;
        if let Some(link) = &mut self.links[id] {
            let step = link.testing_step(limit, now);
            due = step.0;
            recovered = step.1;
        }
        proof {
            lemma_link_replaced(entries, self.links@, id as int, self.links@[id as int]->0);
        }
        if recovered {
            self.remove_idle(id);
        }
        assert(self@ =~= before.tested(id, now));
        due
    }
}

} // verus!
