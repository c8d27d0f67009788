//! Timeouts of links.

use crate::agg::link_int::{LinkInt, LinkState};
use crate::agg::limits::lemma_oldest_unconfirmed;
use crate::agg::state::{Task, TaskState, TaskTimes};
use crate::agg::state::{lemma_frame_wf, lemma_wf_link};
use crate::agg::tx::Unconfirmed;
use crate::cfg::LinkPing;
use crate::control::NotWorkingReason;
use crate::time::{Duration, Instant};
use vstd::prelude::*;

verus! {

/// Timeout of a link.
#[derive(Debug, Clone, Copy, PartialEq, Eq, Structural)]
pub enum LinkTimeout {
    /// A ping must be sent.
    SendPing,
    /// The reply to a ping must have been received.
    Ping,
    /// The link must have been confirmed.
    Unconfirmed,
    /// Sending over the link must have been possible.
    Send,
    /// The link must be flushed.
    Flush,
}

/// The later of two points in time.
pub open spec fn later(a: u128, b: u128) -> u128 {
    if a < b {
        b
    } else {
        a
    }
}

/// Point in time that lies the specified duration after another one, if there is one; otherwise now.
pub open spec fn after_or_now(t: Option<Instant>, d: Duration, now: Instant) -> u128 {
    match t {
        Some(t) => t.plus(d),
        None => now.nanos as u128,
    }
}

impl LinkState {
    /// Point in time, in nanoseconds, when the link must be pinged.
    ///
    /// A link is not pinged while it is unconfirmed or a ping is outstanding.
    pub open spec fn next_ping(self, now: Instant) -> Option<u128> {
        if self.ping.current_ping_sent is None && !self.ping.send_ping && self.status.unconfirmed is None {
            match self.eff_cfg().ping {
                LinkPing::Periodic(interval) => Some(after_or_now(self.ping.last_ping, interval, now)),
                LinkPing::WhenIdle(timeout) => Some(
                    later(
                        after_or_now(self.flush.tx_last_msg, timeout, now),
                        after_or_now(self.ping.last_ping, timeout, now),
                    ),
                ),
                LinkPing::WhenTimedOut => None,
            }
        } else {
            None
        }
    }

    /// Point in time, in nanoseconds, of a timeout of the link.
    ///
    /// A link that is unconfirmed because its ping is too high or its test failed does not time out.
    pub open spec fn timeout(self, timeout: LinkTimeout, now: Instant) -> Option<u128> {
        let cfg = self.eff_cfg();
        match timeout {
            LinkTimeout::SendPing => self.next_ping(now),
            LinkTimeout::Ping => match self.ping.current_ping_sent {
                Some(since) => Some(since.plus(cfg.ping_timeout)),
                None => None,
            },
            LinkTimeout::Unconfirmed => match self.status.unconfirmed {
                Some((since, reason)) if reason != NotWorkingReason::MaxPingExceeded && reason
                    != NotWorkingReason::TestFailed => Some(
                    since.plus(cfg.non_working_timeout),
                ),
                _ => None,
            },
            LinkTimeout::Send => match self.tx.tx_polling {
                Some(since) => Some(since.plus(cfg.ping_timeout)),
                None => None,
            },
            LinkTimeout::Flush => match self.flush_deadline().due {
                Some((due, _)) => Some(due),
                None => None,
            },
        }
    }
}

/// The link with the earliest timeout, and that timeout. Of several such links, it is the first one.
pub open spec fn earliest(links: Seq<Option<LinkState>>, timeout: LinkTimeout, now: Instant) -> Option<(usize, u128)>
    decreases links.len(),
{
    if links.len() == 0 {
        None
    } else {
        let best = earliest(links.drop_last(), timeout, now);
        let time = match links.last() {
            Some(l) => l.timeout(timeout, now),
            None => None,
        };
        match (time, best) {
            (Some(t), Some((_, b))) if t >= b => best,
            (Some(t), _) => Some(((links.len() - 1) as usize, t)),
            (None, _) => best,
        }
    }
}

/// A duration limited to a range.
pub open spec fn clamped(nanos: int, min: Duration, max: Duration) -> Duration {
    if nanos < min.nanos {
        min
    } else if nanos > max.nanos {
        max
    } else {
        Duration { nanos: nanos as u64 }
    }
}

impl LinkState {
    /// Product of the factors by which the roundtrip time is multiplied to obtain the acknowledgement timeout.
    pub open spec fn ack_timeout_factor(self, resent: bool) -> int {
        let cfg = self.eff_cfg();
        let resent_factor: int = if resent {
            cfg.ack_timeout_resent_factor as int
        } else {
            1
        };
        let unreliable_factor: int = if self.has_reliable_roundtrip() {
            1
        } else {
            cfg.ack_timeout_unreliable_factor as int
        };
        cfg.ack_timeout_roundtrip_factor * resent_factor * unreliable_factor
    }

    /// Timeout waiting for a packet to be acknowledged.
    pub open spec fn ack_timeout(self, resent: bool) -> Duration {
        let cfg = self.eff_cfg();
        clamped(
            self.ping.roundtrip.nanos * self.ack_timeout_factor(resent),
            cfg.ack_timeout_min,
            cfg.ack_timeout_max,
        )
    }
}

impl TaskState {
    /// Time, in nanoseconds, when the earliest sent packet times out confirmation, together with the index of
    /// the link used to send it and whether it was flushed.
    pub open spec fn confirm_timeout(self) -> Option<(usize, u128, bool)> {
        match self.tx.oldest_unconfirmed() {
            Some(u) => {
                let definitely_sent = match u.flushed {
                    Some(flushed) => flushed,
                    None => u.sent,
                };
                Some(
                    (
                        u.link_id,
                        definitely_sent.plus(self.link(u.link_id as int).ack_timeout(u.resent)),
                        u.flushed is Some,
                    ),
                )
            },
            None => None,
        }
    }

    /// Whether any link is confirmed.
    pub open spec fn any_confirmed(self) -> bool {
        exists|i: int| #![trigger self.has(i)] self.has(i) && self.link(i).status.unconfirmed is None
    }

    /// Since when no link is working.
    pub open spec fn not_working_since(self, now: Instant) -> Option<Instant> {
        if self.any_confirmed() {
            None
        } else {
            match self.times.links_not_working_since {
                Some(since) => Some(since),
                None => Some(now),
            }
        }
    }

    /// State after updating since when no link is working.
    pub open spec fn not_working_updated(self, now: Instant) -> TaskState {
        TaskState {
            times: TaskTimes { links_not_working_since: self.not_working_since(now), ..self.times },
            ..self
        }
    }

    /// State after a testing step of each link with an index from `from` up to `to`.
    pub open spec fn all_tested(self, from: usize, to: int, now: Instant) -> TaskState
        decreases to - from,
    {
        if from < to && from < usize::MAX {
            self.tested(from, now).all_tested((from + 1) as usize, to, now)
        } else {
            self
        }
    }

    /// Earliest time, in nanoseconds, when a testing step is due, after a testing step of each link
    /// with an index from `from` up to `to`.
    pub open spec fn all_test_due(self, from: usize, to: int, now: Instant) -> Option<u128>
        decreases to - from,
    {
        if from < to && from < usize::MAX {
            let rest = self.tested(from, now).all_test_due((from + 1) as usize, to, now);
            match (self.test_due(from, now), rest) {
                (Some(a), Some(b)) => Some(if b < a { b } else { a }),
                (Some(a), None) => Some(a),
                (None, _) => rest,
            }
        } else {
            None
        }
    }
}

/// A number limited to a maximum.
pub open spec fn capped(x: int, max: int) -> int {
    if x > max {
        max
    } else {
        x
    }
}

/// Limiting a product while it is being calculated does not change the limited product.
proof fn lemma_capped_product(x: int, factor: int, max: int)
    requires
        0 <= x,
        1 <= factor,
        0 <= max,
    ensures
        capped(capped(x, max) * factor, max) == capped(x * factor, max),
{
    if x > max {
        assert(x * factor >= x) by (nonlinear_arith)
            requires
                0 <= x,
                1 <= factor,
        ;
        assert(max * factor >= max) by (nonlinear_arith)
            requires
                0 <= max,
                1 <= factor,
        ;
    }
}

/// Product of two numbers, limited to a maximum.
fn capped_product(x: u128, factor: u32, max: u64) -> (r: u128)
    requires
        x <= max,
        factor >= 1,
    ensures
        r == capped(x * factor, max as int),
{
    assert(x * factor <= 0xffff_ffff_ffff_ffff * 0xffff_ffff) by (nonlinear_arith)
        requires
            0 <= x <= 0xffff_ffff_ffff_ffff,
            0 <= factor <= 0xffff_ffff,
    ;
    let p: u128 = x * factor as u128;
    if p > max as u128 {
        max as u128
    } else {
        p
    }
}

impl LinkInt {
    /// Timeout waiting for a packet to be acknowledged.
    pub fn ack_timeout(&self, resent: bool) -> (r: Duration)
        requires
            self@.wf(),
        ensures
            r == self@.ack_timeout(resent),
    {
        let reliable: bool = self.has_reliable_roundtrip();
        let cfg = self.link_cfg();
        let min: u64 = cfg.ack_timeout_min.nanos;
        let max: u64 = cfg.ack_timeout_max.nanos;
        let resent_factor: u32 = if resent {
            cfg.ack_timeout_resent_factor
        } else {
            1
        };
        let unreliable_factor: u32 = if reliable {
            1
        } else {
            cfg.ack_timeout_unreliable_factor
        };
        let base: u128 = if self.ping.roundtrip.nanos > max {
            max as u128
        } else {
            self.ping.roundtrip.nanos as u128
        };
        let ghost rt = self.ping.roundtrip.nanos as int;
        let ghost f = cfg.ack_timeout_roundtrip_factor as int;
        proof {
            lemma_capped_product(rt, f, max as int);
            lemma_capped_product(rt * f, resent_factor as int, max as int);
            lemma_capped_product(rt * f * resent_factor, unreliable_factor as int, max as int);
            assert(rt * f >= 0 && rt * f * resent_factor >= 0) by (nonlinear_arith)
                requires
                    rt >= 0,
                    f >= 0,
                    resent_factor >= 0,
            ;
            assert(rt * f * resent_factor * unreliable_factor == rt * (f * resent_factor * unreliable_factor))
                by (nonlinear_arith);
        }
        let a: u128 = capped_product(base, cfg.ack_timeout_roundtrip_factor, max);
        let b: u128 = capped_product(a, resent_factor, max);
        let c: u128 = capped_product(b, unreliable_factor, max);
        if c < min as u128 {
            Duration { nanos: min }
        } else {
            Duration { nanos: c as u64 }
        }
    }

    /// Point in time that lies the specified duration after another one, if there is one; otherwise now.
    fn after_or_now(t: Option<Instant>, d: Duration, now: Instant) -> (r: u128)
        ensures
            r == after_or_now(t, d, now),
    {
        match t {
            Some(t) => t.after(d),
            None => now.nanos as u128,
        }
    }

    /// Point in time, in nanoseconds, when the link must be pinged.
    pub fn next_ping(&self, now: Instant) -> (r: Option<u128>)
        ensures
            r == self@.next_ping(now),
    {
        if self.ping.current_ping_sent.is_some() || self.ping.send_ping || self.status.unconfirmed.is_some() {
            return None;
        }
        match self.link_cfg().ping {
            LinkPing::Periodic(interval) => Some(LinkInt::after_or_now(self.ping.last_ping, interval, now)),
            LinkPing::WhenIdle(timeout) => {
                let msg_timeout: u128 = LinkInt::after_or_now(self.flush.tx_last_msg, timeout, now);
                let ping_timeout: u128 = LinkInt::after_or_now(self.ping.last_ping, timeout, now);
                Some(
                    if msg_timeout < ping_timeout {
                        ping_timeout
                    } else {
                        msg_timeout
                    },
                )
            },
            LinkPing::WhenTimedOut => None,
        }
    }

    /// Point in time, in nanoseconds, of a timeout of the link.
    pub fn timeout(&self, timeout: LinkTimeout, now: Instant) -> (r: Option<u128>)
        ensures
            r == self@.timeout(timeout, now),
    {
        match timeout {
            LinkTimeout::SendPing => self.next_ping(now),
            LinkTimeout::Ping => match self.ping.current_ping_sent {
                Some(since) => Some(since.after(self.link_cfg().ping_timeout)),
                None => None,
            },
            LinkTimeout::Unconfirmed => match self.status.unconfirmed {
                Some((since, reason)) => {
                    if reason != NotWorkingReason::MaxPingExceeded && reason != NotWorkingReason::TestFailed {
                        Some(since.after(self.link_cfg().non_working_timeout))
                    } else {
                        None
                    }
                },
                None => None,
            },
            LinkTimeout::Send => match self.tx.tx_polling {
                Some(since) => Some(since.after(self.link_cfg().ping_timeout)),
                None => None,
            },
            LinkTimeout::Flush => match self.flush_deadline().due {
                Some((due, _)) => Some(due),
                None => None,
            },
        }
    }
}

impl Task {
    /// Computes the earliest link-specific timeout.
    ///
    /// Returns link id and time, in nanoseconds, of timeout.
    pub fn earliest_link_specific_timeout(&self, timeout: LinkTimeout, now: Instant) -> (r: Option<(usize, u128)>)
        ensures
            r == earliest(self@.links, timeout, now),
    {
        let ghost links = self@.links;
        let mut best: Option<(usize, u128)> = None;
        let mut i: usize = 0;
        assert(links.take(0) =~= Seq::empty());
        while i < self.links.len()
            invariant
                links == self@.links,
                i <= links.len(),
                best == earliest(links.take(i as int), timeout, now),
            decreases links.len() - i,
        {
            assert(links.take(i + 1).drop_last() =~= links.take(i as int));
            assert(links.take(i + 1).last() == links[i as int]);
            if let Some(link) = &self.links[i] {
                if let Some(t) = link.timeout(timeout, now) {
                    let better: bool = match best {
                        Some((_, b)) => t < b,
                        None => true,
                    };
                    if better {
                        best = Some((i, t));
                    }
                }
            }
            i += 1;
        }
        assert(links.take(i as int) =~= links);
        best
    }

    /// Time when next link must be pinged.
    pub fn next_link_ping(&self, now: Instant) -> (r: Option<(usize, u128)>)
        ensures
            r == earliest(self@.links, LinkTimeout::SendPing, now),
    {
        self.earliest_link_specific_timeout(LinkTimeout::SendPing, now)
    }

    /// Time when the earliest sent packet times out confirmation.
    ///
    /// Returns link id, time, in nanoseconds, of timeout and whether the packet was flushed.
    pub fn earliest_confirm_timeout(&self) -> (r: Option<(usize, u128, bool)>)
        requires
            self@.wf(),
        ensures
            r == self@.confirm_timeout(),
    {
        proof {
            lemma_oldest_unconfirmed(self@);
        }
        match self.tx.oldest_unconfirmed() {
            Some(u) => {
                let definitely_sent: Instant = match u.flushed {
                    Some(flushed) => flushed,
                    None => u.sent,
                };
                let mut dur: Duration = Duration { nanos: 0 };
                proof {
                    lemma_wf_link(self@, u.link_id as int);
                }
                if let Some(link) = &self.links[u.link_id] {
                    dur = link.ack_timeout(u.resent);
                }
                Some((u.link_id, definitely_sent.after(dur), u.flushed.is_some()))
            },
            None => None,
        }
    }

    /// Whether any link is confirmed.
    fn is_any_confirmed(&self) -> (r: bool)
        ensures
            r == self@.any_confirmed(),
    {
        let mut i: usize = 0;
        while i < self.links.len()
            invariant
                i <= self.links@.len(),
                forall|k: int|
                    #![trigger self@.has(k)]
                    self@.has(k) && k < i ==> self@.link(k).status.unconfirmed is Some,
            decreases self.links@.len() - i,
        {
            if let Some(link) = &self.links[i] {
                if link.status.unconfirmed.is_none() {
                    assert(self@.has(i as int));
                    return true;
                }
            }
            i += 1;
        }
        false
    }

    /// Returns since when no link is working.
    pub fn links_not_working_since(&mut self, now: Instant) -> (r: Option<Instant>)
        requires
            old(self)@.wf(),
        ensures
            final(self)@ == old(self)@.not_working_updated(now),
            r == old(self)@.not_working_since(now),
            final(self)@.wf(),
    {
        proof {
            lemma_frame_wf(self@, self@.not_working_updated(now));
        }
        if self.is_any_confirmed() {
            self.times.links_not_working_since = None;
        } else if self.times.links_not_working_since.is_none() {
            self.times.links_not_working_since = Some(now);
        }
        self.times.links_not_working_since
    }

    /// Performs a testing step of each link.
    ///
    /// Returns time, in nanoseconds, when the next testing step is due.
    pub fn test_links(&mut self, now: Instant) -> (r: Option<u128>)
        requires
            old(self)@.wf(),
        ensures
            final(self)@ == old(self)@.all_tested(0, old(self)@.links.len() as int, now),
            r == old(self)@.all_test_due(0, old(self)@.links.len() as int, now),
            final(self)@.wf(),
    {
        let mut next: Option<u128> = None;
        let n: usize = self.links.len();
        let mut i: usize = 0;
        while i < n
            invariant
                i <= n,
                n == old(self)@.links.len(),
                self@.wf(),
                self@.all_tested(i, n as int, now) == old(self)@.all_tested(0, n as int, now),
                old(self)@.all_test_due(0, n as int, now) == (match (
                    next,
                    self@.all_test_due(i, n as int, now),
                ) {
                    (Some(a), Some(b)) => Some(if b < a { b } else { a }),
                    (Some(a), None) => Some(a),
                    (None, rest) => rest,
                }),
            decreases n - i,
        {
            let due: Option<u128> = self.link_testing_step(i, now);
            next = match (next, due) {
                (Some(a), Some(b)) => Some(if b < a { b } else { a }),
                (Some(a), None) => Some(a),
                (None, due) => due,
            };
            i += 1;
        }
        next
    }
}

} // verus!
