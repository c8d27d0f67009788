//! Decisions that are made before waiting for the next event of a connection.

use crate::agg::ready::SendFlags;
use crate::agg::state::{lemma_frame_wf, lemma_wf_buffers, lemma_wf_idle};
use crate::agg::state::{SendReq, Task, TaskErrors, TaskChannels, TaskState, TaskTimes};
use crate::agg::termination::Termination;
use crate::agg::timeouts::{earliest, LinkTimeout};
use crate::alc::{RecvError, SendError};
use crate::cfg::ExchangedCfg;
use crate::control::Stats;
use crate::id::LinkId;
use crate::time::{duration_between, Duration, Instant};
use vstd::prelude::*;

verus! {

broadcast use vstd::std_specs::hash::group_hash_axioms;

/// Timeouts to wait for. Points in time are in nanoseconds.
#[derive(Clone, Copy, Debug)]
pub struct RoundTimeouts {
    /// When no link will have been working for too long.
    pub no_links: Option<u128>,
    /// Link to ping next and when.
    pub ping: Option<(usize, u128)>,
    /// Link whose ping reply is overdue first and when.
    pub pong: Option<(usize, u128)>,
    /// Link that will have been unconfirmed for too long first and when.
    pub unconfirmed: Option<(usize, u128)>,
    /// Link over which sending takes too long first and when.
    pub send: Option<(usize, u128)>,
    /// When the next link testing step is due.
    pub testing: Option<u128>,
    /// Link on which the confirmation of a packet is overdue first, when and whether that packet
    /// has been flushed.
    pub confirm: Option<(usize, u128, bool)>,
}

/// What has to be done before waiting for the next event.
#[derive(Clone, Copy, Debug)]
pub struct Round {
    /// What may be sent.
    pub flags: SendFlags,
    /// Timeouts to wait for.
    pub timeouts: RoundTimeouts,
    /// If set, the establishment of the connection must be notified.
    pub connected: Option<ExchangedCfg>,
    /// Whether the completion of flushing must be notified.
    pub flushed: bool,
}

/// What the sender can do next.
#[derive(Clone, Copy, Debug, PartialEq, Eq, Structural)]
pub enum WriteStep {
    /// Nothing.
    Wait,
    /// Wait for a request from the user.
    Receive,
    /// Send the size of consumed data over an idle link.
    SendConsumed,
    /// Send the data that is waiting.
    Send,
    /// Flush all links.
    Flush,
}

/// Shortest of the durations.
pub open spec fn shortest(durations: Seq<Duration>) -> Option<Duration>
    decreases durations.len(),
{
    if durations.len() == 0 {
        None
    } else {
        match shortest(durations.drop_last()) {
            Some(d) if d.nanos <= durations.last().nanos => Some(d),
            _ => Some(durations.last()),
        }
    }
}

/// The last of the idle links over which data can be sent and that is not the one to avoid.
pub open spec fn last_sendable(s: TaskState, idle: Seq<usize>, avoid: Option<LinkId>) -> Option<usize>
    decreases idle.len(),
{
    if idle.len() == 0 {
        None
    } else {
        let link = s.link(idle.last() as int);
        if link.is_sendable() && avoid != Some(link.info.link_id) {
            Some(idle.last())
        } else {
            last_sendable(s, idle.drop_last(), avoid)
        }
    }
}

impl TaskState {
    /// Statistics of the connection.
    pub open spec fn stats(self) -> Stats {
        Stats {
            established: self.times.established,
            not_working_since: self.times.links_not_working_since,
            send_space: self.tx_space(),
            sent_unacked: self.tx.unacked,
            sent_unconsumed: self.tx.unconsumed,
            sent_unconsumed_count: self.tx.packets.len() as usize,
            sent_unconsumable: self.tx.unconsumable,
            resend_queue_len: self.tx.resend_queue.len() as usize,
            recved_unconsumed: self.rx.size,
            recved_unconsumed_count: self.rx.unconsumed_count(),
        }
    }

    /// Whether statistics must be published.
    pub open spec fn stats_due(self, now: Instant) -> bool {
        shortest(self.info.cfg.stats_intervals@) matches Some(interval) && duration_between(
            self.times.stats_last_sent,
            now,
        ).nanos >= interval.nanos
    }

    /// State after publishing statistics.
    pub open spec fn stats_sent(self, now: Instant) -> TaskState {
        if self.stats_due(now) {
            TaskState { times: TaskTimes { stats_last_sent: now, ..self.times }, ..self }
        } else {
            self
        }
    }

    /// Whether any link is available.
    pub open spec fn links_available(self) -> bool {
        exists|i: int| #![trigger self.has(i)] self.has(i)
    }

    /// Whether sender and receiver have both been dropped, either locally or remotely.
    pub open spec fn is_closed(self) -> bool {
        !self.chan.read_open && self.write_rx is None
    }

    /// Whether everything has been exchanged with the remote endpoint.
    pub open spec fn is_finished(self) -> bool {
        &&& self.tx.packets.len() == 0
        &&& self.tx.unconsumed == 0
        &&& self.rx.size == 0
        &&& self.rx.consumed == 0
        &&& self.chan.send_finish_sent
        &&& self.chan.receive_finish_sent
    }

    /// Since when sender and receiver are both dropped.
    pub open spec fn closed_since(self, now: Instant) -> Instant {
        match self.times.read_write_closed {
            Some(since) => since,
            None => now,
        }
    }

    /// State after noting that sender and receiver have both been dropped.
    pub open spec fn closing_noted(self, now: Instant) -> TaskState {
        if self.is_closed() {
            TaskState {
                times: TaskTimes { read_write_closed: Some(self.closed_since(now)), ..self.times },
                ..self
            }
        } else {
            self
        }
    }

    /// How the connection ends now, if it does.
    pub open spec fn ending(self, now: Instant) -> Option<Termination> {
        if self.is_closed() && (self.is_finished() || !self.links_available() || duration_between(
            self.closed_since(now),
            now,
        ).nanos >= self.info.cfg.termination_timeout.nanos) {
            Some(Termination::Closed)
        } else if !self.links_available() && !self.chan.link_rx_open {
            Some(Termination::NoMoreLinks)
        } else {
            None
        }
    }

    /// Configuration of the remote endpoint, if the establishment of the connection must be notified.
    pub open spec fn connected_notice(self) -> Option<ExchangedCfg> {
        if self.links_available() && self.times.connect_pending {
            self.info.remote_cfg
        } else {
            None
        }
    }

    /// Whether the completion of flushing must be notified.
    pub open spec fn flushed_notice(self) -> bool {
        self.unflushed.is_empty() && self.times.flush_pending
    }

    /// State after notifications.
    pub open spec fn notified(self, now: Instant) -> TaskState {
        let connected = self.links_available() && self.times.connect_pending;
        TaskState {
            times: TaskTimes {
                connect_pending: self.times.connect_pending && !connected,
                established: if connected {
                    Some(now)
                } else {
                    self.times.established
                },
                flush_pending: self.times.flush_pending && !self.flushed_notice(),
                ..self.times
            },
            ..self
        }
    }

    /// State after checking and adjusting the limits of all links.
    #[verifier::opaque]
    pub open spec fn limited(self, now: Instant) -> TaskState {
        self.check_limits(now).adjust_limits(now).not_working_updated(now)
    }

    /// State after performing a testing step of all links.
    #[verifier::opaque]
    pub open spec fn links_tested(self, now: Instant) -> TaskState {
        self.all_tested(0, self.links.len() as int, now)
    }

    /// What may be sent, if packets were already waiting to be resent before.
    pub open spec fn send_flags(self, was_resending: bool) -> SendFlags {
        SendFlags {
            consume_ack_required: self.rx.consume_ack_required(self.info.cfg.recv_buffer),
            tx_seq_avail: self.tx.seq_avail(),
            tx_space: self.tx_space(),
            resending: was_resending && self.tx.resend_queue.len() > 0,
            non_resendable: self.tx.non_resendable(),
            sendable: last_sendable(self, self.idle, None),
            resendable: last_sendable(self, self.idle, self.tx.non_resendable()),
        }
    }

    /// Timeouts to wait for before the links are tested.
    pub open spec fn link_timeouts(self, now: Instant) -> RoundTimeouts {
        RoundTimeouts {
            no_links: match self.times.links_not_working_since {
                Some(since) => Some(since.plus(self.info.cfg.no_link_timeout)),
                None => None,
            },
            ping: earliest(self.links, LinkTimeout::SendPing, now),
            pong: earliest(self.links, LinkTimeout::Ping, now),
            unconfirmed: earliest(self.links, LinkTimeout::Unconfirmed, now),
            send: earliest(self.links, LinkTimeout::Send, now),
            testing: self.all_test_due(0, self.links.len() as int, now),
            confirm: self.links_tested(now).confirm_timeout(),
        }
    }

    /// State before waiting for the next event and what has to be done.
    pub open spec fn begin(self, now: Instant) -> (TaskState, Result<Round, Termination>) {
        let noted = self.closing_noted(now);
        match self.ending(now) {
            Some(termination) => (noted, Err(termination)),
            None => {
                let limited = noted.notified(now).limited(now);
                let tested = limited.links_tested(now);
                (
                    tested,
                    Ok(
                        Round {
                            flags: tested.send_flags(self.tx.resend_queue.len() > 0),
                            timeouts: limited.link_timeouts(now),
                            connected: noted.connected_notice(),
                            flushed: noted.flushed_notice(),
                        },
                    ),
                )
            },
        }
    }

    /// What the sender can do next.
    pub open spec fn write_step(self, flags: SendFlags) -> WriteStep {
        if self.idle.len() > 0 && flags.consume_ack_required && flags.tx_seq_avail {
            WriteStep::SendConsumed
        } else if self.write_rx is None || !flags.tx_seq_avail || flags.resending {
            WriteStep::Wait
        } else {
            match self.write_rx->0.peeked {
                None => WriteStep::Receive,
                Some(SendReq::Flush) => WriteStep::Flush,
                Some(SendReq::Send(_)) => if flags.sendable is Some && crate::agg::ready::data_to_send(
                    self.write_rx,
                    flags.tx_space,
                ) is Some {
                    WriteStep::Send
                } else {
                    WriteStep::Wait
                },
            }
        }
    }

    /// State after the connection has ended.
    pub open spec fn ended(self, termination: Termination) -> TaskState {
        TaskState {
            errors: TaskErrors {
                read_error: if self.errors.read_error == Some(RecvError::TaskTerminated) {
                    termination.recv_error()
                } else {
                    self.errors.read_error
                },
                write_error: if self.errors.write_error == SendError::TaskTerminated {
                    termination.send_error()
                } else {
                    self.errors.write_error
                },
            },
            chan: TaskChannels { read_open: false, ..self.chan },
            write_rx: None,
            ..self
        }
    }
}

/// A sendable idle link is idle and sendable.
pub proof fn lemma_last_sendable(s: TaskState, idle: Seq<usize>, avoid: Option<LinkId>)
    ensures
        last_sendable(s, idle, avoid) matches Some(id) ==> {
            &&& idle.contains(id)
            &&& s.link(id as int).is_sendable()
            &&& avoid != Some(s.link(id as int).info.link_id)
        },
    decreases idle.len(),
{
    if idle.len() > 0 {
        lemma_last_sendable(s, idle.drop_last(), avoid);
        assert(idle.contains(idle.last()));
        if let Some(id) = last_sendable(s, idle.drop_last(), avoid) {
            let k = choose|k: int| 0 <= k < idle.drop_last().len() && idle.drop_last()[k] == id;
            assert(idle[k] == id);
        }
    }
}

/// What may be sent according to the state is allowed.
pub proof fn lemma_send_flags(s: TaskState, was_resending: bool)
    ensures
        s.allows(s.send_flags(was_resending)),
{
    lemma_last_sendable(s, s.idle, None);
    lemma_last_sendable(s, s.idle, s.tx.non_resendable());
}

impl Task {
    /// Returns whether statistics must be published.
    fn is_stats_due(&self, now: Instant) -> (r: bool)
        ensures
            r == self@.stats_due(now),
    {
        let intervals: &Vec<Duration> = &self.info.cfg.stats_intervals;
        let mut min: Option<Duration> = None;
        let mut i: usize = 0;
        assert(intervals@.take(0) =~= Seq::empty());
        while i < intervals.len()
            invariant
                i <= intervals@.len(),
                min == shortest(intervals@.take(i as int)),
            decreases intervals@.len() - i,
        {
            assert(intervals@.take(i + 1).drop_last() =~= intervals@.take(i as int));
            let interval: Duration = intervals[i];
            let replace: bool = match min {
                Some(d) => interval.nanos < d.nanos,
                None => true,
            };
            if replace {
                min = Some(interval);
            }
            i += 1;
        }
        assert(intervals@.take(i as int) =~= intervals@);
        match min {
            Some(interval) => self.times.stats_last_sent.elapsed(now).nanos >= interval.nanos,
            None => false,
        }
    }

    /// Statistics of the connection, if it is time to publish them.
    pub fn send_stats(&mut self, now: Instant) -> (r: Option<Stats>)
        requires
            old(self)@.wf(),
        ensures
            r == if old(self)@.stats_due(now) {
                Some(old(self)@.stats())
            } else {
                None
            },
            final(self)@ == old(self)@.stats_sent(now),
            final(self)@.wf(),
    {
        let ghost before = self@;
        if self.is_stats_due(now) {
            let stats: Stats = Stats {
                established: self.times.established,
                not_working_since: self.times.links_not_working_since,
                send_space: self.tx_space(),
                sent_unacked: self.tx.txed_unacked,
                sent_unconsumed: self.tx.txed_unconsumed,
                sent_unconsumed_count: self.tx.txed_packets.len(),
                sent_unconsumable: self.tx.txed_unconsumable,
                resend_queue_len: self.tx.resend_queue.len(),
                recved_unconsumed: self.rx.rxed_reliable_size,
                recved_unconsumed_count: self.rx.unconsumed_count(),
            };
            self.times.stats_last_sent = now;
            proof {
                lemma_frame_wf(before, self@);
            }
            assert(self@ =~= before.stats_sent(now));
            Some(stats)
        } else {
            None
        }
    }

    /// Returns whether any link is available.
    fn is_link_present(&self) -> (r: bool)
        requires
            self@.wf(),
        ensures
            r == self@.links_available(),
    {
        proof {
            lemma_wf_buffers(self@);
            if self@.links.len() > 0 {
                assert(self@.has(self@.links.len() - 1));
            }
        }
        self.links.len() > 0
    }

    /// Returns whether everything has been exchanged with the remote endpoint.
    fn is_finished(&self) -> (r: bool)
        ensures
            r == self@.is_finished(),
    {
        self.tx.txed_packets.len() == 0 && self.tx.txed_unconsumed == 0 && self.rx.rxed_reliable_size == 0
            && self.rx.rxed_reliable_consumed_since_last_ack == 0 && self.chan.send_finish_sent
            && self.chan.receive_finish_sent
    }

    /// Checks whether the connection ends because it is not used anymore or cannot be used anymore.
    pub fn check_ending(&mut self, now: Instant) -> (r: Option<Termination>)
        requires
            old(self)@.wf(),
        ensures
            final(self)@ == old(self)@.closing_noted(now),
            r == old(self)@.ending(now),
            final(self)@.wf(),
    {
        let ghost before = self@;
        let available: bool = self.is_link_present();
        proof {
            lemma_frame_wf(before, before.closing_noted(now));
        }
        if !self.chan.read_open && self.write_rx.is_none() {
            let since: Instant = match self.times.read_write_closed {
                Some(since) => since,
                None => now,
            };
            self.times.read_write_closed = Some(since);
            assert(self@ =~= before.closing_noted(now));
            if self.is_finished() || !available || since.elapsed(now).nanos
                >= self.info.cfg.termination_timeout.nanos {
                return Some(Termination::Closed);
            }
        }
        if !available && !self.chan.link_rx_open {
            Some(Termination::NoMoreLinks)
        } else {
            None
        }
    }

    /// Determines the notifications that are due.
    fn take_notices(&mut self, now: Instant) -> (r: (Option<ExchangedCfg>, bool))
        requires
            old(self)@.wf(),
        ensures
            final(self)@ == old(self)@.notified(now),
            r.0 == old(self)@.connected_notice(),
            r.1 == old(self)@.flushed_notice(),
            final(self)@.wf(),
    {
        let ghost before = self@;
        proof {
            lemma_frame_wf(before, before.notified(now));
        }
        let mut connected: Option<ExchangedCfg> = None;
        if self.is_link_present() && self.times.connect_pending {
            connected = self.info.remote_cfg;
            self.times.connect_pending = false;
            self.times.established = Some(now);
        }
        let flushed: bool = self.unflushed_links.is_empty() && self.times.flush_pending;
        if flushed {
            self.times.flush_pending = false;
        }
        assert(self@ =~= before.notified(now));
        (connected, flushed)
    }

    /// Checks and adjusts the limits of all links.
    fn apply_limits(&mut self, now: Instant)
        requires
            old(self)@.wf(),
        ensures
            final(self)@ == old(self)@.limited(now),
            final(self)@.wf(),
    {
        reveal(TaskState::limited);
        // Check link limits and unconfirm if exceeded.
        self.check_link_limits(now);
        // Adjust link transmit buffer limits.
        self.adjust_link_tx_limits(now);
        self.links_not_working_since(now);
    }

    /// Performs a testing step of all links and determines the timeouts to wait for.
    fn test_and_time(&mut self, now: Instant) -> (r: RoundTimeouts)
        requires
            old(self)@.wf(),
        ensures
            final(self)@ == old(self)@.links_tested(now),
            r == old(self)@.link_timeouts(now),
            final(self)@.wf(),
    {
        reveal(TaskState::links_tested);
        let no_links: Option<u128> = match self.times.links_not_working_since {
            Some(since) => Some(since.after(self.info.cfg.no_link_timeout)),
            None => None,
        };
        let ping: Option<(usize, u128)> = self.next_link_ping(now);
        let pong: Option<(usize, u128)> = self.earliest_link_specific_timeout(LinkTimeout::Ping, now);
        let unconfirmed: Option<(usize, u128)> = self.earliest_link_specific_timeout(LinkTimeout::Unconfirmed, now);
        let send: Option<(usize, u128)> = self.earliest_link_specific_timeout(LinkTimeout::Send, now);
        let testing: Option<u128> = self.test_links(now);
        let confirm: Option<(usize, u128, bool)> = self.earliest_confirm_timeout();
        RoundTimeouts { no_links, ping, pong, unconfirmed, send, testing, confirm }
    }

    /// The link that became idle last over which data can be sent and that is not the one to avoid.
    fn last_sendable(&self, avoid: Option<LinkId>) -> (r: Option<usize>)
        requires
            self@.wf(),
        ensures
            r == last_sendable(self@, self@.idle, avoid),
    {
        let mut n: usize = self.idle_links.len();
        assert(self@.idle.take(n as int) =~= self@.idle);
        while n > 0
            invariant
                self@.wf(),
                n <= self@.idle.len(),
                last_sendable(self@, self@.idle, avoid) == last_sendable(self@, self@.idle.take(n as int), avoid),
            decreases n,
        {
            n -= 1;
            assert(self@.idle.take(n + 1).drop_last() =~= self@.idle.take(n as int));
            let id: usize = self.idle_links[n];
            proof {
                assert(self@.idle.contains(id));
                lemma_wf_idle(self@, id);
            }
            if let Some(link) = &self.links[id] {
                let avoided: bool = match avoid {
                    Some(other) => other == link.info.link_id,
                    None => false,
                };
                if link.is_sendable() && !avoided {
                    return Some(id);
                }
            }
        }
        None
    }

    /// Determines what may be sent.
    fn send_flags(&self, was_resending: bool) -> (r: SendFlags)
        requires
            self@.wf(),
        ensures
            r == self@.send_flags(was_resending),
            self@.allows(r),
    {
        proof {
            lemma_wf_buffers(self@);
            lemma_send_flags(self@, was_resending);
        }
        let non_resendable: Option<LinkId> = match self.tx.next_resend() {
            Some((_, _, sent_link)) => Some(sent_link),
            None => None,
        };
        SendFlags {
            consume_ack_required: self.is_consume_ack_required(),
            tx_seq_avail: self.tx_seq_avail(),
            tx_space: self.tx_space(),
            resending: was_resending && self.tx.resend_queue.len() > 0,
            non_resendable,
            sendable: self.last_sendable(None),
            resendable: self.last_sendable(non_resendable),
        }
    }

    /// Determines what has to be done before waiting for the next event.
    ///
    /// Returns how the connection ends, if it does.
    pub fn begin_round(&mut self, now: Instant) -> (r: Result<Round, Termination>)
        requires
            old(self)@.wf(),
        ensures
            (final(self)@, r) == old(self)@.begin(now),
            final(self)@.wf(),
            r matches Ok(round) ==> final(self)@.allows(round.flags),
    {
        let was_resending: bool = self.tx.resend_queue.len() > 0;
        if let Some(termination) = self.check_ending(now) {
            return Err(termination);
        }
        let (connected, flushed) = self.take_notices(now);
        self.apply_limits(now);
        let timeouts: RoundTimeouts = self.test_and_time(now);
        let flags: SendFlags = self.send_flags(was_resending);
        Ok(Round { flags, timeouts, connected, flushed })
    }

    /// Determines what the sender can do next.
    pub fn write_step(&self, flags: &SendFlags) -> (r: WriteStep)
        ensures
            r == self@.write_step(*flags),
    {
        if self.idle_links.len() > 0 && flags.consume_ack_required && flags.tx_seq_avail {
            return WriteStep::SendConsumed;
        }
        if !flags.tx_seq_avail || flags.resending {
            return WriteStep::Wait;
        }
        match &self.write_rx {
            None => WriteStep::Wait,
            Some(write_rx) => match &write_rx.peeked {
                None => WriteStep::Receive,
                Some(SendReq::Flush) => WriteStep::Flush,
                Some(SendReq::Send(data)) => if flags.sendable.is_some() && data.len() as u64 <= flags.tx_space {
                    WriteStep::Send
                } else {
                    WriteStep::Wait
                },
            },
        }
    }

    /// Ends the connection.
    pub fn end(&mut self, termination: &Termination)
        requires
            old(self)@.wf(),
        ensures
            final(self)@ == old(self)@.ended(*termination),
            final(self)@.wf(),
    {
        let ghost before = self@;
        proof {
            lemma_frame_wf(before, before.ended(*termination));
        }
        if let Some(RecvError::TaskTerminated) = &self.errors.read_error {
            self.errors.read_error = termination.read_term();
        }
        if let SendError::TaskTerminated = &self.errors.write_error {
            self.errors.write_error = termination.write_term();
        }
        self.chan.read_open = false;
        self.write_rx = None;
        assert(self@ =~= before.ended(*termination));
    }
}

} // verus!
