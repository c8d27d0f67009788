//! The timeout that a connection waits for.

use crate::agg::events::TaskEvent;
use crate::agg::link_int::{LinkIntEvent, LinkState};
use crate::agg::round::RoundTimeouts;
use crate::agg::state::Task;
use crate::agg::timeouts::{earliest, LinkTimeout};
use crate::time::Instant;
use vstd::prelude::*;

verus! {

/// The sooner of two timeouts, each with its time in nanoseconds and the event that then occurs.
pub open spec fn sooner_of(
    a: Option<(u128, TaskEvent)>,
    b: Option<(u128, TaskEvent)>,
) -> Option<(u128, TaskEvent)> {
    match (a, b) {
        (Some((at, _)), Some((bt, _))) if bt < at => b,
        (None, _) => b,
        _ => a,
    }
}

/// The sooner of two timeouts.
fn sooner(a: Option<(u128, TaskEvent)>, b: Option<(u128, TaskEvent)>) -> (r: Option<(u128, TaskEvent)>)
    ensures
        r == sooner_of(a, b),
{
    match (a, b) {
        (Some((at, ae)), Some((bt, be))) => if bt < at {
            Some((bt, be))
        } else {
            Some((at, ae))
        },
        (None, b) => b,
        (a, None) => a,
    }
}

/// Whether a timeout, if there is one, occurs at the specified time or later.
pub open spec fn not_before(timeout: Option<u128>, time: u128) -> bool {
    timeout matches Some(t) ==> time <= t
}

/// Time of the timeout of a link.
pub open spec fn time_of(timeout: Option<(usize, u128)>) -> Option<u128> {
    match timeout {
        Some((_, time)) => Some(time),
        None => None,
    }
}

impl RoundTimeouts {
    /// The confirmation timeout and the event that then occurs.
    ///
    /// If the packet has not been flushed, the link is flushed first.
    pub open spec fn confirm_event(self) -> Option<(u128, TaskEvent)> {
        match self.confirm {
            Some((id, time, flushed)) => Some(
                (
                    time,
                    if flushed {
                        TaskEvent::ConfirmTimedOut(id)
                    } else {
                        TaskEvent::LinkEvent { id, event: LinkIntEvent::FlushRequired }
                    },
                ),
            ),
            None => None,
        }
    }

    /// The first of the timeouts for removing or pinging a link and the event that then occurs.
    pub open spec fn link_event(self) -> Option<(u128, TaskEvent)> {
        let ping = match self.ping {
            Some((id, time)) => Some((time, TaskEvent::PingLink(id))),
            None => None,
        };
        let pong = match self.pong {
            Some((id, time)) => Some((time, TaskEvent::LinkPingTimeout(id))),
            None => None,
        };
        let unconfirmed = match self.unconfirmed {
            Some((id, time)) => Some((time, TaskEvent::LinkUnconfirmedTimeout(id))),
            None => None,
        };
        let send = match self.send {
            Some((id, time)) => Some((time, TaskEvent::LinkSendTimeout(id))),
            None => None,
        };
        sooner_of(sooner_of(ping, pong), sooner_of(unconfirmed, send))
    }

    /// The first of the timeouts of the connection and the event that then occurs.
    pub open spec fn conn_event(self) -> Option<(u128, TaskEvent)> {
        let testing = match self.testing {
            Some(time) => Some((time, TaskEvent::LinkTesting)),
            None => None,
        };
        let no_links = match self.no_links {
            Some(time) => Some((time, TaskEvent::NoLinksTimeout)),
            None => None,
        };
        sooner_of(testing, no_links)
    }

    /// The first of all timeouts and the event that then occurs, when `flush` is the link
    /// that must be flushed first and when.
    pub open spec fn first_event(self, flush: Option<(usize, u128)>) -> Option<(u128, TaskEvent)> {
        let flushing = match flush {
            Some((id, time)) => Some((time, TaskEvent::LinkEvent { id, event: LinkIntEvent::FlushRequired })),
            None => None,
        };
        sooner_of(sooner_of(self.confirm_event(), self.link_event()), sooner_of(self.conn_event(), flushing))
    }

    /// The confirmation timeout and the event that then occurs.
    fn next_confirm(&self) -> (r: Option<(u128, TaskEvent)>)
        ensures
            r == self.confirm_event(),
    {
        match self.confirm {
            Some((id, time, flushed)) => Some(
                (
                    time,
                    if flushed {
                        TaskEvent::ConfirmTimedOut(id)
                    } else {
                        TaskEvent::LinkEvent { id, event: LinkIntEvent::FlushRequired }
                    },
                ),
            ),
            None => None,
        }
    }

    /// The first of the timeouts for removing or pinging a link and the event that then occurs.
    fn next_link(&self) -> (r: Option<(u128, TaskEvent)>)
        ensures
            r == self.link_event(),
    {
        let ping: Option<(u128, TaskEvent)> = match self.ping {
            Some((id, time)) => Some((time, TaskEvent::PingLink(id))),
            None => None,
        };
        let pong: Option<(u128, TaskEvent)> = match self.pong {
            Some((id, time)) => Some((time, TaskEvent::LinkPingTimeout(id))),
            None => None,
        };
        let unconfirmed: Option<(u128, TaskEvent)> = match self.unconfirmed {
            Some((id, time)) => Some((time, TaskEvent::LinkUnconfirmedTimeout(id))),
            None => None,
        };
        let send: Option<(u128, TaskEvent)> = match self.send {
            Some((id, time)) => Some((time, TaskEvent::LinkSendTimeout(id))),
            None => None,
        };
        sooner(sooner(ping, pong), sooner(unconfirmed, send))
    }

    /// The first of the timeouts of the connection and the event that then occurs.
    fn next_conn(&self) -> (r: Option<(u128, TaskEvent)>)
        ensures
            r == self.conn_event(),
    {
        let testing: Option<(u128, TaskEvent)> = match self.testing {
            Some(time) => Some((time, TaskEvent::LinkTesting)),
            None => None,
        };
        let no_links: Option<(u128, TaskEvent)> = match self.no_links {
            Some(time) => Some((time, TaskEvent::NoLinksTimeout)),
            None => None,
        };
        sooner(testing, no_links)
    }
}

impl Task {
    /// The first of all timeouts of this round, in nanoseconds, and the event that then occurs.
    pub fn next_timeout(&self, timeouts: &RoundTimeouts, now: Instant) -> (r: Option<(u128, TaskEvent)>)
        ensures
            r == timeouts.first_event(earliest(self@.links, LinkTimeout::Flush, now)),
    {
        let flushing: Option<(u128, TaskEvent)> = match self.earliest_link_specific_timeout(LinkTimeout::Flush, now) {
            Some((id, time)) => Some((time, TaskEvent::LinkEvent { id, event: LinkIntEvent::FlushRequired })),
            None => None,
        };
        sooner(sooner(timeouts.next_confirm(), timeouts.next_link()), sooner(timeouts.next_conn(), flushing))
    }
}

/// No timeout is missed: none of them occurs before the first one, which is there if any of them is.
pub proof fn law_no_timeout_missed(timeouts: RoundTimeouts, links: Seq<Option<LinkState>>, now: Instant)
    ensures
        ({
            let flush = time_of(earliest(links, LinkTimeout::Flush, now));
            let confirm = match timeouts.confirm {
                Some((_, time, _)) => Some(time),
                None => None,
            };
            match timeouts.first_event(earliest(links, LinkTimeout::Flush, now)) {
                Some((first, _)) => {
                    &&& not_before(flush, first)
                    &&& not_before(confirm, first)
                    &&& not_before(time_of(timeouts.ping), first)
                    &&& not_before(time_of(timeouts.pong), first)
                    &&& not_before(time_of(timeouts.unconfirmed), first)
                    &&& not_before(time_of(timeouts.send), first)
                    &&& not_before(timeouts.testing, first)
                    &&& not_before(timeouts.no_links, first)
                },
                None => {
                    &&& flush is None
                    &&& confirm is None
                    &&& timeouts.ping is None
                    &&& timeouts.pong is None
                    &&& timeouts.unconfirmed is None
                    &&& timeouts.send is None
                    &&& timeouts.testing is None
                    &&& timeouts.no_links is None
                },
            }
        }),
{
}

} // verus!
