//! Link statistics calculation.

use crate::control::{LinkIntervalStats, LinkStats};
use crate::time::{duration_between, Duration, Instant};
use vstd::prelude::*;

verus! {

/// Link statistics keeper.
#[derive(Debug)]
pub struct LinkStatistican {
    /// Current statistics.
    pub current: LinkStats,
    /// Statistics over time intervals that are being calculated.
    pub running_stats: Vec<LinkIntervalStats>,
}

/// Mathematical model of the link statistics keeper.
#[verifier::ext_equal]
pub struct StatsState {
    /// Time when link was established.
    pub established: Instant,
    /// Total data sent in bytes.
    pub total_sent: u64,
    /// Total data received in bytes.
    pub total_recved: u64,
    /// Data sent but not yet acknowledged at last publication.
    pub sent_unacked: u64,
    /// Limit of unacknowledged data at last publication.
    pub unacked_limit: u64,
    /// Round trip duration at last publication.
    pub roundtrip: Duration,
    /// Number of times link exceeded timeout.
    pub hangs: usize,
    /// Statistics of the last complete time intervals.
    pub complete: Seq<LinkIntervalStats>,
    /// Statistics of the running time intervals.
    pub running: Seq<LinkIntervalStats>,
}

impl View for LinkStatistican {
    type V = StatsState;

    open spec fn view(&self) -> StatsState {
        StatsState {
            established: self.current.established,
            total_sent: self.current.total_sent,
            total_recved: self.current.total_recved,
            sent_unacked: self.current.sent_unacked,
            unacked_limit: self.current.unacked_limit,
            roundtrip: self.current.roundtrip,
            hangs: self.current.hangs,
            complete: self.current.time_stats@,
            running: self.running_stats@,
        }
    }
}

/// Sum of two counters, which wrap around.
pub open spec fn wrapped_sum(a: u64, b: u64) -> u64 {
    ((a + b) % 0x1_0000_0000_0000_0000) as u64
}

/// Difference of two counters, which wrap around.
pub open spec fn wrapped_difference(a: u64, b: u64) -> u64 {
    ((a - b) % 0x1_0000_0000_0000_0000) as u64
}

/// Forgetting that data has been sent undoes recording it.
pub proof fn law_unrecorded_inverts_recorded(s: StatsState, sent: u64)
    ensures
        s.recorded(sent, 0).unrecorded(sent) == s,
{
    let t = s.recorded(sent, 0).unrecorded(sent);
    assert forall|i: int| 0 <= i < s.running.len() implies #[trigger] t.running[i] == s.running[i] by {}
    assert(t.running =~= s.running);
}

impl StatsState {
    /// Statistics of a new link.
    pub open spec fn initial(intervals: Seq<Duration>, roundtrip: Duration, now: Instant) -> StatsState {
        let stats = intervals.map_values(|interval: Duration| LinkIntervalStats::start_of(interval, now));
        StatsState {
            established: now,
            total_sent: 0,
            total_recved: 0,
            sent_unacked: 0,
            unacked_limit: 0,
            roundtrip,
            hangs: 0,
            complete: stats,
            running: stats,
        }
    }

    /// There is a completed interval for each running interval.
    pub open spec fn wf(self) -> bool {
        self.complete.len() == self.running.len()
    }

    /// Statistics after data has been sent and received.
    pub open spec fn recorded(self, sent: u64, received: u64) -> StatsState {
        StatsState {
            total_sent: wrapped_sum(self.total_sent, sent),
            total_recved: wrapped_sum(self.total_recved, received),
            running: self.running.map_values(
                |ts: LinkIntervalStats| LinkIntervalStats {
                    sent: wrapped_sum(ts.sent, sent),
                    recved: wrapped_sum(ts.recved, received),
                    ..ts
                },
            ),
            ..self
        }
    }

    /// Statistics after forgetting that data has been sent.
    pub open spec fn unrecorded(self, sent: u64) -> StatsState {
        StatsState {
            total_sent: wrapped_difference(self.total_sent, sent),
            running: self.running.map_values(
                |ts: LinkIntervalStats| LinkIntervalStats { sent: wrapped_difference(ts.sent, sent), ..ts },
            ),
            ..self
        }
    }

    /// Statistics after the send part of the link has become idle.
    pub open spec fn idle(self) -> StatsState {
        StatsState {
            running: self.running.map_values(
                |ts: LinkIntervalStats| LinkIntervalStats { busy: false, ..ts },
            ),
            ..self
        }
    }

    /// Statistics after the link exceeded a timeout.
    pub open spec fn hung(self) -> StatsState {
        StatsState { hangs: if self.hangs < usize::MAX { (self.hangs + 1) as usize } else { self.hangs }, ..self }
    }

    /// Whether the running interval with the specified index is over.
    pub open spec fn is_over(self, i: int, now: Instant) -> bool {
        duration_between(self.running[i].start, now).nanos > self.running[i].interval.nanos
    }

    /// Whether any running interval is over.
    pub open spec fn any_over(self, now: Instant) -> bool {
        exists|i: int| 0 <= i < self.running.len() && #[trigger] self.is_over(i, now)
    }

    /// Statistics after replacing the running intervals that are over by new ones.
    ///
    /// The link was not busy during an interval in which nothing was sent.
    pub open spec fn published(self, now: Instant) -> StatsState {
        StatsState {
            complete: Seq::new(
                self.running.len(),
                |i: int|
                    if self.is_over(i, now) {
                        LinkIntervalStats {
                            busy: self.running[i].busy && self.running[i].sent != 0,
                            ..self.running[i]
                        }
                    } else {
                        self.complete[i]
                    },
            ),
            running: Seq::new(
                self.running.len(),
                |i: int|
                    if self.is_over(i, now) {
                        LinkIntervalStats::start_of(self.running[i].interval, now)
                    } else {
                        self.running[i]
                    },
            ),
            ..self
        }
    }
}

/// Starts statistics over time intervals.
fn start_intervals(intervals: &Vec<Duration>, now: Instant) -> (r: Vec<LinkIntervalStats>)
    ensures
        r@ == intervals@.map_values(|interval: Duration| LinkIntervalStats::start_of(interval, now)),
{
    let mut stats: Vec<LinkIntervalStats> = Vec::new();
    let mut i: usize = 0;
    while i < intervals.len()
        invariant
            i <= intervals@.len(),
            stats@ == intervals@.take(i as int).map_values(
                |interval: Duration| LinkIntervalStats::start_of(interval, now),
            ),
        decreases intervals@.len() - i,
    {
        stats.push(LinkIntervalStats::new(intervals[i], now));
        i += 1;
        assert(stats@ =~= intervals@.take(i as int).map_values(
            |interval: Duration| LinkIntervalStats::start_of(interval, now),
        ));
    }
    assert(intervals@.take(i as int) =~= intervals@);
    stats
}

impl LinkStatistican {
    /// Initializes link statistics.
    pub fn new(intervals: &Vec<Duration>, roundtrip: Duration, now: Instant) -> (r: Self)
        ensures
            r@ == StatsState::initial(intervals@, roundtrip, now),
    {
        LinkStatistican {
            current: LinkStats {
                established: now,
                total_sent: 0,
                total_recved: 0,
                sent_unacked: 0,
                unacked_limit: 0,
                roundtrip,
                hangs: 0,
                time_stats: start_intervals(intervals, now),
            },
            running_stats: start_intervals(intervals, now),
        }
    }

    /// Publish link statistics.
    ///
    /// Returns whether the current statistics have changed and are to be published.
    pub fn publish(&mut self, now: Instant) -> (r: bool)
        requires
            old(self)@.wf(),
        ensures
            final(self)@ == old(self)@.published(now),
            r == old(self)@.any_over(now),
    {
        let ghost before = self@;
        let mut modified: bool = false;
        let mut i: usize = 0;
        while i < self.running_stats.len()
            invariant
                before == old(self)@,
                before.wf(),
                i <= before.running.len(),
                self@ == (StatsState { complete: self@.complete, running: self@.running, ..before }),
                self@.running.len() == before.running.len(),
                self@.complete.len() == before.running.len(),
                forall|k: int| 0 <= k < i ==> self@.running[k] == before.published(now).running[k],
                forall|k: int| 0 <= k < i ==> self@.complete[k] == before.published(now).complete[k],
                forall|k: int| i <= k < before.running.len() ==> self@.running[k] == before.running[k],
                forall|k: int| i <= k < before.running.len() ==> self@.complete[k] == before.complete[k],
                modified == exists|k: int| 0 <= k < i && #[trigger] before.is_over(k, now),
            decreases before.running.len() - i,
        {
            let rs: LinkIntervalStats = self.running_stats[i];
            assert(rs == before.running[i as int]);
            let elapsed: Duration = rs.start.elapsed(now);
            if elapsed.nanos > rs.interval.nanos {
                assert(before.is_over(i as int, now));
                let mut done: LinkIntervalStats = rs;
                if done.sent == 0 {
                    done.busy = false;
                }
                self.current.time_stats.set(i, done);
                self.running_stats.set(i, LinkIntervalStats::new(rs.interval, now));
                modified = true;
            }
            i += 1;
        }
        assert(self@ =~= before.published(now));
        modified
    }

    /// Records sent and received data.
    pub fn record(&mut self, sent: u64, received: u64)
        ensures
            final(self)@ == old(self)@.recorded(sent, received),
    {
        let ghost before = self@;
        self.current.total_sent = self.current.total_sent.wrapping_add(sent);
        self.current.total_recved = self.current.total_recved.wrapping_add(received);
        let mut i: usize = 0;
        while i < self.running_stats.len()
            invariant
                before == old(self)@,
                i <= before.running.len(),
                self@ == (StatsState { running: self@.running, ..before.recorded(sent, received) }),
                self@.running.len() == before.running.len(),
                forall|k: int| 0 <= k < i ==> self@.running[k] == before.recorded(sent, received).running[k],
                forall|k: int| i <= k < before.running.len() ==> self@.running[k] == before.running[k],
            decreases before.running.len() - i,
        {
            let mut ts: LinkIntervalStats = self.running_stats[i];
            ts.sent = ts.sent.wrapping_add(sent);
            ts.recved = ts.recved.wrapping_add(received);
            self.running_stats.set(i, ts);
            i += 1;
        }
        assert(self@ =~= before.recorded(sent, received));
    }

    /// Forgets that data has been sent.
    pub fn unrecord(&mut self, sent: u64)
        ensures
            final(self)@ == old(self)@.unrecorded(sent),
    {
        let ghost before = self@;
        self.current.total_sent = self.current.total_sent.wrapping_sub(sent);
        let mut i: usize = 0;
        while i < self.running_stats.len()
            invariant
                before == old(self)@,
                i <= before.running.len(),
                self@ == (StatsState { running: self@.running, ..before.unrecorded(sent) }),
                self@.running.len() == before.running.len(),
                forall|k: int| 0 <= k < i ==> self@.running[k] == before.unrecorded(sent).running[k],
                forall|k: int| i <= k < before.running.len() ==> self@.running[k] == before.running[k],
            decreases before.running.len() - i,
        {
            let mut ts: LinkIntervalStats = self.running_stats[i];
            ts.sent = ts.sent.wrapping_sub(sent);
            self.running_stats.set(i, ts);
            i += 1;
        }
        assert(self@ =~= before.unrecorded(sent));
    }

    /// Records that the send part of the link has become idle.
    pub fn mark_idle(&mut self)
        ensures
            final(self)@ == old(self)@.idle(),
    {
        let ghost before = self@;
        let mut i: usize = 0;
        while i < self.running_stats.len()
            invariant
                before == old(self)@,
                i <= before.running.len(),
                self@ == (StatsState { running: self@.running, ..before }),
                self@.running.len() == before.running.len(),
                forall|k: int| 0 <= k < i ==> self@.running[k] == before.idle().running[k],
                forall|k: int| i <= k < before.running.len() ==> self@.running[k] == before.running[k],
            decreases before.running.len() - i,
        {
            let mut ts: LinkIntervalStats = self.running_stats[i];
            ts.busy = false;
            self.running_stats.set(i, ts);
            i += 1;
        }
        assert(self@ =~= before.idle());
    }

    /// Records that the link exceeded a timeout.
    pub fn record_hang(&mut self)
        ensures
            final(self)@ == old(self)@.hung(),
    {
        self.current.hangs = self.current.hangs.saturating_add(1);
    }
}

/// What is sent and received is added to the totals and to each running interval.
pub proof fn law_traffic_is_counted(s: StatsState, sent: u64, received: u64)
    ensures
        ({
            let t = s.recorded(sent, received);
            &&& (s.total_sent + sent <= u64::MAX ==> t.total_sent == s.total_sent + sent)
            &&& (s.total_recved + received <= u64::MAX ==> t.total_recved == s.total_recved + received)
            &&& t.running.len() == s.running.len()
            &&& t.complete == s.complete
            &&& t.hangs == s.hangs
            &&& forall|i: int|
                #![trigger t.running[i]]
                0 <= i < s.running.len() ==> {
                    &&& (s.running[i].sent + sent <= u64::MAX ==> t.running[i].sent == s.running[i].sent + sent)
                    &&& (s.running[i].recved + received <= u64::MAX ==> t.running[i].recved == s.running[i].recved
                        + received)
                    &&& t.running[i].busy == s.running[i].busy
                    &&& t.running[i].start == s.running[i].start
                    &&& t.running[i].interval == s.running[i].interval
                }
        }),
{
}

/// An interval that is over becomes the complete one, and a new one with the same length is started. During it the link
/// was busy, if it never became idle and something was sent. All other intervals go on.
pub proof fn law_intervals_are_published(s: StatsState, now: Instant, i: int)
    requires
        s.wf(),
        0 <= i < s.running.len(),
    ensures
        ({
            let t = s.published(now);
            let r = s.running[i];
            let over = now.nanos - r.start.nanos > r.interval.nanos;
            &&& t.wf()
            &&& t.running.len() == s.running.len()
            &&& (over ==> {
                &&& t.complete[i].sent == r.sent
                &&& t.complete[i].recved == r.recved
                &&& t.complete[i].start == r.start
                &&& t.complete[i].interval == r.interval
                &&& t.complete[i].busy == (r.busy && r.sent > 0)
                &&& t.running[i].interval == r.interval
                &&& t.running[i].start == now
                &&& t.running[i].sent == 0
                &&& t.running[i].recved == 0
                &&& t.running[i].busy
            })
            &&& (!over ==> t.running[i] == r && t.complete[i] == s.complete[i])
            &&& t.total_sent == s.total_sent
            &&& t.total_recved == s.total_recved
        }),
        s.idle().running.len() == s.running.len(),
        !s.idle().running[i].busy,
        s.idle().running[i].sent == s.running[i].sent,
{
}


} // verus!
