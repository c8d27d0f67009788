//! The two endpoints of a connection.

use crate::agg::account::{lemma_data_from_push, newly_consumed, newly_sent};
use crate::agg::delivery::{data_from, has_received, received_reliable};
use crate::agg::delivery::{law_events_deliver_stream, law_no_overflow, law_received_stays_received};
use crate::agg::effect::{appended, law_events_send_what_is_written, law_rounds_keep_invariant, proper, unconcerned};
use crate::agg::events::TaskEvent;
use crate::agg::events::lemma_remote_known_wf;
use crate::agg::flow::{heard_in, reports_taken};
use crate::agg::flow::{law_consumed_is_reported, law_taken_is_to_be_reported, lemma_heard_grows};
use crate::agg::flow::{lemma_heard_of_longer, lemma_heard_stays, lemma_heard_was_reported};
use crate::agg::flow::{lemma_report_accepted, lemma_taken_size};
use crate::agg::laws::{ack_known, carries, delivered};
use crate::agg::laws::{law_events_keep_invariant, law_graceful_end_loses_nothing, law_user_takes_next};
use crate::agg::laws::lemma_consumables_add;
use crate::agg::link_int::{LinkState, LinkTest};
use crate::agg::poll::{lemma_link_operated, same_link};
use crate::agg::ready::SendFlags;
use crate::agg::rx::{consumables, lemma_place_of_position, msgs_size, stream_part, Place, ReceivedReliableMsg};
use crate::agg::send::lemma_add_wf;
use crate::agg::state::{lemma_frame_wf, lemma_wf_buffers, RemovedLink, SendReq, TaskState, TaskTimes};
use crate::agg::stream::{acknowledged, extends, law_events_keep_stream, law_rounds_keep_stream};
use crate::agg::task::lemma_initial_wf;
use crate::agg::termination::Termination;
use crate::agg::user::lemma_consume_wf;
use crate::agg::wire::stream_after;
use crate::agg::written::{data_in, holds_written, lemma_consumables_data, lemma_holds_written};
use crate::agg::written::{lemma_taken_data, msgs_of};
use crate::alc::{RecvError, SendError};
use crate::msg::ReliableMsg;
use crate::peekable_mpsc::PeekableReceiver;
use crate::seq::{lemma_steps_between_positions, seq_modulus, seq_of, steps_between, SeqNum};
use crate::time::{duration_between, Instant};
use bytes::Bytes;
use vstd::prelude::*;

verus! {

/// An endpoint of a connection and what has happened to it.
pub struct Side {
    /// Endpoint.
    pub task: TaskState,
    /// Data that its user has written.
    pub written: Seq<Bytes>,
    /// Messages that it has sent.
    pub stream: Seq<ReliableMsg>,
    /// Position up to which it has received the messages of the other endpoint.
    pub received: int,
    /// Messages that its user has taken.
    pub taken: Seq<ReceivedReliableMsg>,
    /// Amount of data that the other endpoint has reported to it as consumed.
    pub reported: nat,
}

/// Both endpoints of a connection.
pub struct Ends {
    /// One endpoint.
    pub a: Side,
    /// The other endpoint.
    pub b: Side,
}

/// One of the endpoints of a connection.
pub enum End {
    /// One endpoint.
    A,
    /// The other endpoint.
    B,
}

/// What happens at an endpoint.
pub enum SideStep {
    /// The user writes data or requests flushing.
    Offer(SendReq),
    /// The user takes a message.
    Take,
    /// An event occurs.
    Event {
        /// Event.
        event: TaskEvent,
        /// What may be sent.
        flags: SendFlags,
        /// Time of the event.
        now: Instant,
        /// Position of the message that is received or acknowledged by the event, if any.
        position: int,
    },
    /// The endpoint prepares waiting for the next event.
    Round {
        /// Time.
        now: Instant,
    },
    /// A new link is presented.
    NewLink {
        /// Link.
        link: LinkState,
        /// Whether the link filter has accepted it.
        accepted: bool,
        /// Time.
        now: Instant,
    },
    /// The owner of the connection operates the transmit sink or the receive stream of a link.
    Operate {
        /// Index of the link.
        id: usize,
        /// Link afterwards.
        link: LinkState,
    },
    /// The owner of the connection obtains statistics and the links that have been removed.
    Note {
        /// Points in time afterwards.
        times: TaskTimes,
        /// Removed links afterwards.
        removed: Seq<RemovedLink>,
    },
}

/// What happens at one of the endpoints.
pub struct EndsStep {
    /// Endpoint.
    pub end: End,
    /// What happens.
    pub step: SideStep,
}

/// An endpoint after an event.
#[verifier::opaque]
pub open spec fn after_event(s: TaskState, event: TaskEvent, flags: SendFlags, now: Instant) -> TaskState {
    s.handle_event(event, flags, now).0
}

/// An endpoint that waits for the next event.
#[verifier::opaque]
pub open spec fn after_round(s: TaskState, now: Instant) -> TaskState {
    s.begin(now).0
}

/// An endpoint after a new link has been presented.
pub open spec fn after_new_link(s: TaskState, link: LinkState, accepted: bool, now: Instant) -> TaskState {
    let known = s.remote_known(link.info.remote_cfg);
    if accepted {
        known.add(link, now)
    } else {
        known
    }
}

/// Whether an event may occur at an endpoint.
#[verifier::opaque]
pub open spec fn may_occur(s: TaskState, event: TaskEvent, flags: SendFlags) -> bool {
    &&& s.links.len() <= usize::MAX
    &&& s.allows(flags)
    &&& s.admits(event, flags)
}

/// Data that a request adds to what has been written.
pub open spec fn data_requested(request: SendReq) -> Seq<Bytes> {
    match request {
        SendReq::Send(data) => seq![data],
        SendReq::Flush => Seq::empty(),
    }
}

impl Side {
    /// A new endpoint.
    pub open spec fn start(task: TaskState) -> Side {
        Side {
            task,
            written: Seq::empty(),
            stream: Seq::empty(),
            received: 0,
            taken: Seq::empty(),
            reported: 0,
        }
    }

    /// Positions of the messages of the other endpoint that have been received.
    pub open spec fn got(self) -> Set<int> {
        Set::new(|p: int| has_received(self.task.rx, self.received, p))
    }

    /// The endpoint keeps its invariant, sends what is written, reports what is taken and reports the end of
    /// data without error.
    pub open spec fn wf(self) -> bool {
        &&& self.task.wf()
        &&& holds_written(self.task, self.stream, self.written)
        &&& reports_taken(self.task, self.stream, self.taken)
        &&& forall|k: int|
            0 <= k < self.taken.len() && (#[trigger] self.taken[k]).msg is SendFinish
                ==> self.task.errors.read_error is None
    }

    /// The data that its user has taken.
    pub open spec fn read(self) -> Seq<Bytes> {
        data_in(msgs_of(self.taken))
    }

    /// Whether its user has read to the end of the data.
    pub open spec fn read_to_end(self) -> bool {
        self.taken.len() > 0 && self.taken.last().msg is SendFinish
    }

    /// The endpoint after a step.
    pub open spec fn after(self, step: SideStep) -> Side {
        match step {
            SideStep::Offer(request) => Side {
                task: TaskState { write_rx: Some(PeekableReceiver { peeked: Some(request) }), ..self.task },
                written: self.written + data_requested(request),
                ..self
            },
            SideStep::Take => Side {
                task: self.task.consume().0,
                taken: self.taken.push(self.task.rx.consumable[0]),
                ..self
            },
            SideStep::Event { event, flags, now, .. } => {
                let task = after_event(self.task, event, flags, now);
                Side {
                    task,
                    stream: stream_after(self.task, task, self.stream),
                    received: self.received + steps_between(task.rx.rx_seq, self.task.rx.rx_seq),
                    reported: self.reported + newly_consumed(self.task, event),
                    ..self
                }
            },
            SideStep::Round { now } => Side { task: after_round(self.task, now), ..self },
            SideStep::NewLink { link, accepted, now } => Side {
                task: after_new_link(self.task, link, accepted, now),
                ..self
            },
            SideStep::Operate { id, link } => Side { task: self.task.set_link(id as int, link), ..self },
            SideStep::Note { times, removed } => Side { task: TaskState { times, removed, ..self.task }, ..self },
        }
    }
}

/// What one endpoint sends reaches the other.
///
/// The sending endpoint still holds what has not been received, the user of the other endpoint gets the
/// beginning of the stream and the sending endpoint knows how much that user can still be sent.
pub open spec fn sends_to(x: Side, y: Side) -> bool {
    &&& carries(x.task.tx, x.stream, y.got())
    &&& delivered(y.taken, y.task.rx, x.stream, y.received)
    &&& x.task.tx.unconsumed + x.reported == data_from(x.stream, 0)
    &&& x.reported <= heard_in(y.stream, x.task.rx, x.received)
    &&& (x.task.remote_recv_buffer() matches Some(size) ==> size == y.task.info.cfg.recv_buffer)
}

/// Whether a step is possible at endpoint `x`, where `y` is the other endpoint.
///
/// Links may lose, delay, repeat and reorder messages, be added and fail at any time. But what is received has
/// been sent, what is acknowledged has been received and neither is older than sequence numbers can tell. That
/// an endpoint hands nothing else to its links is what [`law_only_stream_is_sent`] says. A new link tells the
/// size of the receive buffer of the other endpoint.
///
/// [`law_only_stream_is_sent`]: crate::agg::wire::law_only_stream_is_sent
pub open spec fn possible(x: Side, y: Side, step: SideStep) -> bool {
    match step {
        SideStep::Offer(_) => x.task.write_rx matches Some(write_rx) && write_rx.peeked is None,
        SideStep::Take => x.task.rx.consumable.len() > 0,
        SideStep::Event { event, flags, now, position } => {
            &&& may_occur(x.task, event, flags)
            &&& received_reliable(event) matches Some((msg, seq)) ==> {
                &&& 0 <= position < y.stream.len()
                &&& x.received - SeqNum::USABLE_INTERVAL <= position
                &&& msg == y.stream[position]
                &&& seq == seq_of(position)
            }
            &&& acknowledged(event) matches Some(seq) ==> {
                &&& has_received(y.task.rx, y.received, position)
                &&& position < x.stream.len() < position + seq_modulus()
                &&& seq == seq_of(position)
            }
        },
        SideStep::Round { now } => x.task.links.len() <= usize::MAX,
        SideStep::NewLink { link, accepted, now } => {
            &&& link.wf()
            &&& link.status.test == LinkTest::Inactive
            &&& link.unacked.txed_unacked_data == 0
            &&& link.info.remote_cfg.wf()
            &&& link.info.remote_cfg.recv_buffer == y.task.info.cfg.recv_buffer
        },
        SideStep::Operate { id, link } => {
            &&& x.task.has(id as int)
            &&& link.wf()
            &&& same_link(x.task.link(id as int), link)
        },
        SideStep::Note { .. } => true,
    }
}

impl Ends {
    /// Both endpoints fulfil what is said of them.
    pub open spec fn wf(self) -> bool {
        &&& self.a.wf()
        &&& self.b.wf()
        &&& sends_to(self.a, self.b)
        &&& sends_to(self.b, self.a)
    }

    /// Whether a step is possible.
    pub open spec fn possible(self, step: EndsStep) -> bool {
        match step.end {
            End::A => possible(self.a, self.b, step.step),
            End::B => possible(self.b, self.a, step.step),
        }
    }

    /// The endpoints after a step.
    pub open spec fn after(self, step: EndsStep) -> Ends {
        match step.end {
            End::A => Ends { a: self.a.after(step.step), ..self },
            End::B => Ends { b: self.b.after(step.step), ..self },
        }
    }

    /// The endpoints after several steps.
    pub open spec fn after_all(self, steps: Seq<EndsStep>) -> Ends
        decreases steps.len(),
    {
        if steps.len() == 0 {
            self
        } else {
            self.after_all(steps.drop_last()).after(steps.last())
        }
    }

    /// Whether several steps are possible one after the other.
    pub open spec fn all_possible(self, steps: Seq<EndsStep>) -> bool
        decreases steps.len(),
    {
        steps.len() > 0 ==> self.all_possible(steps.drop_last()) && self.after_all(steps.drop_last()).possible(
            steps.last(),
        )
    }
}

/// Whether both endpoints are new.
///
/// An endpoint that already knows the size of the receive buffer of the other one knows it rightly.
pub open spec fn is_start(e: Ends) -> bool {
    &&& e.a == Side::start(e.a.task)
    &&& e.b == Side::start(e.b.task)
    &&& is_new(e.a.task, e.b.task)
    &&& is_new(e.b.task, e.a.task)
}

/// Whether an endpoint is new.
pub open spec fn is_new(s: TaskState, other: TaskState) -> bool {
    &&& s.info.cfg.wf()
    &&& (s.info.remote_cfg matches Some(remote) ==> remote.wf() && remote.recv_buffer == other.info.cfg.recv_buffer)
    &&& exists|now: Instant|
        s == #[trigger] TaskState::initial(s.info.cfg, s.info.remote_cfg, s.info.conn_id, s.info.direction, now)
}

/// Nothing is further ahead than sequence numbers can tell.
proof fn lemma_reach(x: Side, y: Side)
    requires
        x.task.wf(),
        y.task.wf(),
        sends_to(x, y),
    ensures
        x.stream.len() - x.task.tx.packets.len() <= y.received,
        x.stream.len() <= y.received + SeqNum::USABLE_INTERVAL + 1,
{
    lemma_wf_buffers(x.task);
    lemma_wf_buffers(y.task);
    if x.stream.len() - x.task.tx.packets.len() > y.received {
        assert(y.got().contains(y.received));
    }
}

/// No more data is still to be reported as consumed than the receive buffer holds.
proof fn lemma_unreported(x: Side, y: Side)
    requires
        x.task.wf(),
        y.wf(),
        sends_to(x, y),
    ensures
        y.task.rx.consumed + msgs_size(y.task.rx.consumable) <= y.task.info.cfg.recv_buffer,
        x.reported <= msgs_size(y.taken),
{
    lemma_wf_buffers(x.task);
    lemma_taken_size(y.taken, y.task.rx, x.stream, y.received);
    lemma_heard_was_reported(y.stream, x.task.rx, x.received);
}

/// What the receiving endpoint has received in addition does not matter to the sending endpoint.
proof fn lemma_more_received(x: Side, y: Side, z: Side)
    requires
        carries(x.task.tx, x.stream, y.got()),
        forall|p: int|
            has_received(y.task.rx, y.received, p) ==> #[trigger] has_received(z.task.rx, z.received, p),
    ensures
        carries(x.task.tx, x.stream, z.got()),
{
    assert forall|p: int| #[trigger] y.got().contains(p) implies z.got().contains(p) by {
        assert(has_received(z.task.rx, z.received, p));
    }
    let n = x.stream.len() - x.task.tx.packets.len();
    assert forall|p: int| 0 <= p < n implies #[trigger] z.got().contains(p) by {
        assert(y.got().contains(p));
    }
}

/// What has been delivered stays delivered when more is sent.
proof fn lemma_delivered_extended(y: Side, stream: Seq<ReliableMsg>, msg: ReliableMsg)
    requires
        delivered(y.taken, y.task.rx, stream, y.received),
    ensures
        delivered(y.taken, y.task.rx, stream.push(msg), y.received),
{
    let longer = stream.push(msg);
    assert(stream_part(longer, 0, y.received) =~= stream_part(stream, 0, y.received));
    let slots = y.task.rx.slots;
    assert forall|k: int| 0 <= k < slots.len() && slots[k] is Some implies y.received + k < longer.len() && (
    #[trigger] slots[k])->0.msg == longer[y.received + k] by {}
}

/// What an event does to what is sent.
#[verifier::rlimit(40)]
proof fn lemma_event_sends(x: Side, y: Side, event: TaskEvent, flags: SendFlags, now: Instant, position: int)
    requires
        x.task.wf(),
        sends_to(x, y),
        possible(x, y, SideStep::Event { event, flags, now, position }),
    ensures
        after_event(x.task, event, flags, now).wf(),
        extends(after_event(x.task, event, flags, now).tx, x.stream, y.got()),
{
    reveal(after_event);
    reveal(may_occur);
    if let Some(seq) = acknowledged(event) {
        lemma_steps_between_positions(position, x.stream.len() as int);
        assert(y.got().contains(position));
        assert(ack_known(x.task.tx, x.stream, y.got(), seq));
    }
    law_events_keep_invariant(x.task, event, flags, now);
    law_events_keep_stream(x.task, x.stream, y.got(), event, flags, now);
}

/// What an event does to the exchange with the users.
#[verifier::rlimit(40)]
proof fn lemma_event_proper(s: TaskState, event: TaskEvent, flags: SendFlags, now: Instant)
    requires
        s.wf(),
        may_occur(s, event, flags),
    ensures
        proper(s, after_event(s, event, flags, now)),
        after_event(s, event, flags, now).tx.unconsumed + newly_consumed(s, event) == s.tx.unconsumed + newly_sent(
            s.tx,
            after_event(s, event, flags, now).tx,
        ),
{
    reveal(after_event);
    reveal(may_occur);
    law_events_send_what_is_written(s, event, flags, now);
}

/// What an event does to what is received.
#[verifier::rlimit(40)]
proof fn lemma_event_receives(x: Side, y: Side, event: TaskEvent, flags: SendFlags, now: Instant, position: int)
    requires
        x.task.wf(),
        y.task.wf(),
        sends_to(y, x),
        possible(x, y, SideStep::Event { event, flags, now, position }),
    ensures
        ({
            let t = after_event(x.task, event, flags, now);
            let m = x.received + steps_between(t.rx.rx_seq, x.task.rx.rx_seq);
            &&& delivered(x.taken, t.rx, y.stream, m)
            &&& forall|p: int|
                has_received(x.task.rx, x.received, p) ==> #[trigger] has_received(t.rx, m, p)
            &&& (newly_consumed(x.task, event) > 0 ==> {
                &&& 0 <= position < y.stream.len()
                &&& !has_received(x.task.rx, x.received, position)
                &&& has_received(t.rx, m, position)
                &&& y.stream[position] == ReliableMsg::Consumed(newly_consumed(x.task, event) as u32)
                &&& newly_consumed(x.task, event) <= u32::MAX
            })
        }),
{
    reveal(after_event);
    reveal(may_occur);
    lemma_reach(y, x);
    law_events_deliver_stream(x.taken, x.task, y.stream, x.received, position, event, flags, now);
    law_received_stays_received(x.task, y.stream, x.received, position, event, flags, now);
    if newly_consumed(x.task, event) > 0 {
        lemma_report_accepted(x.task, event, flags, now);
        lemma_place_of_position(x.task.rx, x.received, position);
    }
}

/// The stream after a step that appends at most one message.
proof fn lemma_stream_carried(s: TaskState, t: TaskState, stream: Seq<ReliableMsg>, got: Set<int>)
    requires
        carries(s.tx, stream, got),
        extends(t.tx, stream, got),
        proper(s, t),
    ensures
        carries(t.tx, stream_after(s, t, stream), got),
        stream.is_prefix_of(stream_after(s, t, stream)),
{
    assert(seq_of(stream.len() as int + 1) != seq_of(stream.len() as int));
}

/// An event keeps what is said of both endpoints.
proof fn lemma_event_step(x: Side, y: Side, event: TaskEvent, flags: SendFlags, now: Instant, position: int)
    requires
        x.wf(),
        y.wf(),
        sends_to(x, y),
        sends_to(y, x),
        possible(x, y, SideStep::Event { event, flags, now, position }),
    ensures
        ({
            let z = x.after(SideStep::Event { event, flags, now, position });
            &&& z.wf()
            &&& sends_to(z, y)
            &&& sends_to(y, z)
            &&& x.stream.is_prefix_of(z.stream)
        }),
{
    let t = after_event(x.task, event, flags, now);
    let z = x.after(SideStep::Event { event, flags, now, position });
    lemma_event_sends(x, y, event, flags, now, position);
    lemma_event_proper(x.task, event, flags, now);
    lemma_event_receives(x, y, event, flags, now, position);
    lemma_stream_carried(x.task, t, x.stream, y.got());
    lemma_holds_written(x.task, t, x.stream, x.written);
    lemma_unreported(y, x);
    law_consumed_is_reported(x.task, t, x.stream, x.taken);
    lemma_more_received(y, x, z);
    lemma_heard_of_longer(x.stream, z.stream, y.task.rx, y.received);
    if newly_consumed(x.task, event) > 0 {
        lemma_heard_grows(y.stream, x.task.rx, x.received, z.task.rx, z.received, position);
    } else {
        lemma_heard_stays(y.stream, x.task.rx, x.received, z.task.rx, z.received);
    }
    if let Some(msg) = appended(x.task, t) {
        lemma_delivered_extended(y, x.stream, msg);
        lemma_data_from_push(x.stream, msg);
    }
}

/// A step that leaves alone what is sent and received keeps what is said of both endpoints.
proof fn lemma_quiet_step(x: Side, y: Side, z: Side)
    requires
        sends_to(x, y),
        sends_to(y, x),
        z.task.rx.rx_seq == x.task.rx.rx_seq,
        z.task.rx.slots == x.task.rx.slots,
        z.task.tx.unconsumed == x.task.tx.unconsumed,
        carries(z.task.tx, x.stream, y.got()),
        delivered(z.taken, z.task.rx, y.stream, x.received),
        z.task.info.cfg == x.task.info.cfg,
        z.task.remote_recv_buffer() matches Some(size) ==> size == y.task.info.cfg.recv_buffer,
        z.stream == x.stream,
        z.received == x.received,
        z.reported == x.reported,
    ensures
        sends_to(z, y),
        sends_to(y, z),
{
    assert forall|p: int| has_received(x.task.rx, x.received, p) implies #[trigger] has_received(
        z.task.rx,
        z.received,
        p,
    ) by {}
    lemma_more_received(y, x, z);
    lemma_heard_stays(y.stream, x.task.rx, x.received, z.task.rx, z.received);
}

/// Preparing to wait for the next event keeps what is said of both endpoints.
proof fn lemma_round_step(x: Side, y: Side, now: Instant)
    requires
        x.wf(),
        sends_to(x, y),
        sends_to(y, x),
        possible(x, y, SideStep::Round { now }),
    ensures
        x.after(SideStep::Round { now }).wf(),
        sends_to(x.after(SideStep::Round { now }), y),
        sends_to(y, x.after(SideStep::Round { now })),
{
    let z = x.after(SideStep::Round { now });
    assert(z.task.wf() && unconcerned(x.task, z.task) && carries(z.task.tx, x.stream, y.got())) by {
        reveal(after_round);
        law_rounds_keep_invariant(x.task, now);
        law_rounds_keep_stream(x.task, x.stream, y.got(), now);
    }
    lemma_quiet_step(x, y, z);
}

/// Taking a message keeps what is said of both endpoints.
proof fn lemma_take_step(x: Side, y: Side)
    requires
        x.wf(),
        y.wf(),
        sends_to(x, y),
        sends_to(y, x),
        possible(x, y, SideStep::Take),
    ensures
        x.after(SideStep::Take).wf(),
        sends_to(x.after(SideStep::Take), y),
        sends_to(y, x.after(SideStep::Take)),
{
    let z = x.after(SideStep::Take);
    lemma_consume_wf(x.task);
    law_user_takes_next(x.taken, x.task, y.stream, x.received);
    lemma_unreported(y, x);
    law_taken_is_to_be_reported(x.task, x.stream, x.taken);
    assert forall|k: int| 0 <= k < z.taken.len() && (
    #[trigger] z.taken[k]).msg is SendFinish implies z.task.errors.read_error is None by {
        if k < x.taken.len() {
            assert(z.taken[k] == x.taken[k]);
        }
    }
    lemma_quiet_step(x, y, z);
}

/// A new link keeps what is said of both endpoints.
proof fn lemma_new_link_step(x: Side, y: Side, link: LinkState, accepted: bool, now: Instant)
    requires
        x.wf(),
        sends_to(x, y),
        sends_to(y, x),
        possible(x, y, SideStep::NewLink { link, accepted, now }),
    ensures
        x.after(SideStep::NewLink { link, accepted, now }).wf(),
        sends_to(x.after(SideStep::NewLink { link, accepted, now }), y),
        sends_to(y, x.after(SideStep::NewLink { link, accepted, now })),
{
    let z = x.after(SideStep::NewLink { link, accepted, now });
    lemma_remote_known_wf(x.task, link.info.remote_cfg);
    lemma_add_wf(x.task.remote_known(link.info.remote_cfg), link, now);
    lemma_quiet_step(x, y, z);
}

/// A request of the user keeps what is said of both endpoints.
proof fn lemma_offer_step(x: Side, y: Side, request: SendReq)
    requires
        x.wf(),
        sends_to(x, y),
        sends_to(y, x),
        possible(x, y, SideStep::Offer(request)),
    ensures
        x.after(SideStep::Offer(request)).wf(),
        sends_to(x.after(SideStep::Offer(request)), y),
        sends_to(y, x.after(SideStep::Offer(request))),
{
    let z = x.after(SideStep::Offer(request));
    lemma_frame_wf(x.task, z.task);
    assert(data_in(x.stream) + Seq::<Bytes>::empty() =~= data_in(x.stream));
    assert(holds_written(z.task, z.stream, z.written));
    lemma_quiet_step(x, y, z);
}

/// Every step at an endpoint keeps what is said of both endpoints.
proof fn lemma_side_step(x: Side, y: Side, step: SideStep)
    requires
        x.wf(),
        y.wf(),
        sends_to(x, y),
        sends_to(y, x),
        possible(x, y, step),
    ensures
        x.after(step).wf(),
        sends_to(x.after(step), y),
        sends_to(y, x.after(step)),
        x.written.is_prefix_of(x.after(step).written),
        x.taken.is_prefix_of(x.after(step).taken),
{
    match step {
        SideStep::Offer(request) => lemma_offer_step(x, y, request),
        SideStep::Take => lemma_take_step(x, y),
        SideStep::Event { event, flags, now, position } => lemma_event_step(x, y, event, flags, now, position),
        SideStep::Round { now } => lemma_round_step(x, y, now),
        SideStep::NewLink { link, accepted, now } => lemma_new_link_step(x, y, link, accepted, now),
        SideStep::Operate { id, link } => {
            lemma_link_operated(x.task, id, link);
            lemma_quiet_step(x, y, x.after(step));
        },
        SideStep::Note { times, removed } => {
            lemma_frame_wf(x.task, x.after(step).task);
            lemma_quiet_step(x, y, x.after(step));
        },
    }
}

/// Two new endpoints fulfil what is said of them.
proof fn lemma_start_wf(e: Ends)
    requires
        is_start(e),
    ensures
        e.wf(),
{
    lemma_new_side(e.a, e.b);
    lemma_new_side(e.b, e.a);
}

/// A new endpoint fulfils what is said of it.
proof fn lemma_new_side(x: Side, y: Side)
    requires
        x == Side::start(x.task),
        y == Side::start(y.task),
        is_new(x.task, y.task),
        is_new(y.task, x.task),
    ensures
        x.wf(),
        sends_to(x, y),
{
    let info = x.task.info;
    let now = choose|now: Instant|
        x.task == #[trigger] TaskState::initial(info.cfg, info.remote_cfg, info.conn_id, info.direction, now);
    lemma_initial_wf(info.cfg, info.remote_cfg, info.conn_id, info.direction, now);
    let none = Seq::<ReceivedReliableMsg>::empty();
    assert(stream_part(x.stream, 0, 0) =~= none);
    assert(y.taken + y.task.rx.consumable =~= none);
    assert(data_in(x.stream) + Seq::<Bytes>::empty() =~= Seq::empty());
}

/// Whatever happens to both endpoints of a connection and to the links between them, what is said of both
/// endpoints holds. Nothing that has been written or taken is undone.
pub proof fn law_runs_keep_invariant(e: Ends, steps: Seq<EndsStep>)
    requires
        e.wf(),
        e.all_possible(steps),
    ensures
        e.after_all(steps).wf(),
        e.a.written.is_prefix_of(e.after_all(steps).a.written),
        e.b.written.is_prefix_of(e.after_all(steps).b.written),
        e.a.taken.is_prefix_of(e.after_all(steps).a.taken),
        e.b.taken.is_prefix_of(e.after_all(steps).b.taken),
    decreases steps.len(),
{
    if steps.len() > 0 {
        law_runs_keep_invariant(e, steps.drop_last());
        let before = e.after_all(steps.drop_last());
        match steps.last().end {
            End::A => lemma_side_step(before.a, before.b, steps.last().step),
            End::B => lemma_side_step(before.b, before.a, steps.last().step),
        }
    }
}

/// What the user of one endpoint has taken is the beginning of what the other endpoint has sent for it.
proof fn lemma_taken_prefix(x: Side, y: Side)
    requires
        sends_to(x, y),
    ensures
        y.taken.is_prefix_of(consumables(stream_part(x.stream, 0, x.stream.len() as int))),
{
    let a = stream_part(x.stream, 0, y.received);
    let b = stream_part(x.stream, y.received, x.stream.len() as int);
    lemma_consumables_add(a, b);
    assert(stream_part(x.stream, 0, x.stream.len() as int) =~= a + b);
    assert(y.taken.is_prefix_of((y.taken + y.task.rx.consumable) + consumables(b)));
}

/// From the start of a connection on, whatever happens to both endpoints and the links between them, the data
/// that the user of one endpoint has taken is the beginning of the data that the user of the other endpoint has
/// written: the same data in the same order, nothing skipped and nothing twice. Once a user has read to the end,
/// it is all of it.
pub proof fn law_delivery_between_endpoints(e: Ends, steps: Seq<EndsStep>)
    requires
        is_start(e),
        e.all_possible(steps),
    ensures
        ({
            let t = e.after_all(steps);
            &&& t.b.read().is_prefix_of(t.a.written)
            &&& t.a.read().is_prefix_of(t.b.written)
            &&& (t.b.read_to_end() ==> t.b.read() == t.a.written)
            &&& (t.a.read_to_end() ==> t.a.read() == t.b.written)
        }),
{
    lemma_start_wf(e);
    law_runs_keep_invariant(e, steps);
    let t = e.after_all(steps);
    lemma_taken_prefix(t.a, t.b);
    lemma_taken_prefix(t.b, t.a);
    lemma_taken_data(t.a.task, t.a.stream, t.a.written, t.b.taken);
    lemma_taken_data(t.b.task, t.b.stream, t.b.written, t.a.taken);
}

/// A message that has been sent does not overflow the receive buffer.
proof fn lemma_fits(x: Side, y: Side, i: int)
    requires
        x.task.wf(),
        y.wf(),
        sends_to(x, y),
        0 <= i < x.stream.len(),
        y.received - SeqNum::USABLE_INTERVAL <= i,
        y.task.rx.place(seq_of(i)) matches Ok(Place::New(_)),
    ensures
        !y.task.rx.overflows(x.stream[i], y.task.info.cfg.recv_buffer),
{
    lemma_reach(x, y);
    lemma_unreported(x, y);
    lemma_wf_buffers(x.task);
    lemma_wf_buffers(y.task);
    law_no_overflow(y.taken, y.task.rx, y.task.info.cfg.recv_buffer, x.stream, y.received, i);
}

/// Whether no message that one endpoint has sent overflows the receive buffer of the other.
pub open spec fn never_overflows(x: Side, y: Side) -> bool {
    forall|i: int|
        #![trigger x.stream[i]]
        {
            &&& 0 <= i < x.stream.len()
            &&& y.received - SeqNum::USABLE_INTERVAL <= i
            &&& y.task.rx.place(seq_of(i)) matches Ok(Place::New(_))
        } ==> !y.task.rx.overflows(x.stream[i], y.task.info.cfg.recv_buffer)
}

/// From the start of a connection on, no message that one endpoint has sent overflows the receive buffer of the
/// other.
pub proof fn law_no_overflow_in_runs(e: Ends, steps: Seq<EndsStep>)
    requires
        is_start(e),
        e.all_possible(steps),
    ensures
        never_overflows(e.after_all(steps).a, e.after_all(steps).b),
        never_overflows(e.after_all(steps).b, e.after_all(steps).a),
{
    lemma_start_wf(e);
    law_runs_keep_invariant(e, steps);
    let t = e.after_all(steps);
    lemma_never_overflows(t.a, t.b);
    lemma_never_overflows(t.b, t.a);
}

/// No message that has been sent overflows the receive buffer.
proof fn lemma_never_overflows(x: Side, y: Side)
    requires
        x.task.wf(),
        y.wf(),
        sends_to(x, y),
    ensures
        never_overflows(x, y),
{
    assert forall|i: int|
        #![trigger x.stream[i]]
        {
            &&& 0 <= i < x.stream.len()
            &&& y.received - SeqNum::USABLE_INTERVAL <= i
            &&& y.task.rx.place(seq_of(i)) matches Ok(Place::New(_))
        } implies !y.task.rx.overflows(x.stream[i], y.task.info.cfg.recv_buffer) by {
        lemma_fits(x, y, i);
    }
}

/// Whether a connection now ends because everything has been exchanged after its sender and receiver were
/// dropped.
pub open spec fn ends_gracefully(s: TaskState, now: Instant) -> bool {
    &&& s.ending(now) == Some(Termination::Closed)
    &&& s.links_available()
    &&& duration_between(s.closed_since(now), now).nanos < s.info.cfg.termination_timeout.nanos
}

/// The data of all messages for the user is the data of all messages.
proof fn lemma_all_taken(stream: Seq<ReliableMsg>)
    ensures
        data_in(msgs_of(consumables(stream_part(stream, 0, stream.len() as int)))) == data_in(stream),
{
    lemma_consumables_data(stream_part(stream, 0, stream.len() as int));
    assert(msgs_of(stream_part(stream, 0, stream.len() as int)) =~= stream);
}

/// Whether everything that one endpoint has sent has been received by the other and, once nothing more is ready
/// for it, its user has taken all data.
pub open spec fn nothing_left(x: Side, y: Side) -> bool {
    &&& y.received == x.stream.len()
    &&& (y.task.rx.consumable.len() == 0 ==> y.read() == data_in(x.stream))
}

/// When an endpoint ends gracefully, everything that it has sent has been received.
pub proof fn law_graceful_end_leaves_nothing_behind(e: Ends, steps: Seq<EndsStep>, now: Instant)
    requires
        is_start(e),
        e.all_possible(steps),
    ensures
        ends_gracefully(e.after_all(steps).a.task, now) ==> nothing_left(
            e.after_all(steps).a,
            e.after_all(steps).b,
        ),
        ends_gracefully(e.after_all(steps).b.task, now) ==> nothing_left(
            e.after_all(steps).b,
            e.after_all(steps).a,
        ),
{
    lemma_start_wf(e);
    law_runs_keep_invariant(e, steps);
    let t = e.after_all(steps);
    if ends_gracefully(t.a.task, now) {
        lemma_nothing_left(t.a, t.b, now);
    }
    if ends_gracefully(t.b.task, now) {
        lemma_nothing_left(t.b, t.a, now);
    }
}

/// Everything has been received when the sending endpoint ends gracefully.
proof fn lemma_nothing_left(x: Side, y: Side, now: Instant)
    requires
        x.task.wf(),
        y.task.wf(),
        sends_to(x, y),
        ends_gracefully(x.task, now),
    ensures
        nothing_left(x, y),
{
    law_graceful_end_loses_nothing(x.task, now);
    lemma_reach(x, y);
    if y.task.rx.consumable.len() == 0 {
        assert(y.taken + y.task.rx.consumable =~= y.taken);
        lemma_all_taken(x.stream);
    }
}

/// When the users of both endpoints have stopped sending and read to the end, and both endpoints end gracefully,
/// each user has read all that the other has written, both have received everything, the end of data is reported
/// without error and so is the end of both connections.
pub proof fn law_graceful_end_between_endpoints(e: Ends, steps: Seq<EndsStep>, now_a: Instant, now_b: Instant)
    requires
        is_start(e),
        e.all_possible(steps),
        ends_gracefully(e.after_all(steps).a.task, now_a),
        ends_gracefully(e.after_all(steps).b.task, now_b),
        e.after_all(steps).a.read_to_end(),
        e.after_all(steps).b.read_to_end(),
    ensures
        ({
            let t = e.after_all(steps);
            &&& t.b.read() == t.a.written
            &&& t.a.read() == t.b.written
            &&& t.a.received == t.b.stream.len()
            &&& t.b.received == t.a.stream.len()
            &&& t.a.task.ended(Termination::Closed).errors.read_error is None
            &&& t.b.task.ended(Termination::Closed).errors.read_error is None
            &&& t.a.task.ending(now_a) == Some(Termination::Closed)
            &&& t.b.task.ending(now_b) == Some(Termination::Closed)
        }),
{
    law_delivery_between_endpoints(e, steps);
    lemma_start_wf(e);
    law_runs_keep_invariant(e, steps);
    let t = e.after_all(steps);
    lemma_nothing_left(t.a, t.b, now_a);
    lemma_nothing_left(t.b, t.a, now_b);
    assert(t.a.taken[t.a.taken.len() - 1].msg is SendFinish);
    assert(t.b.taken[t.b.taken.len() - 1].msg is SendFinish);
}

/// A connection whose sender and receiver were dropped ends as soon as everything has been exchanged, and it
/// then reports no error.
pub proof fn law_finished_connection_ends(s: TaskState, now: Instant)
    requires
        s.is_closed(),
        s.is_finished(),
    ensures
        s.ending(now) == Some(Termination::Closed),
        s.begin(now).1 == Err::<crate::agg::round::Round, Termination>(Termination::Closed),
        Termination::Closed.recv_error() is None,
{
}

/// Once a user has read to the end, that is reported without error, whatever happens afterwards and however
/// the connection ends.
pub proof fn law_end_of_data_is_no_error(e: Ends, steps: Seq<EndsStep>, termination: Termination)
    requires
        is_start(e),
        e.all_possible(steps),
    ensures
        e.after_all(steps).a.read_to_end() ==> e.after_all(steps).a.task.ended(
            termination,
        ).errors.read_error is None,
        e.after_all(steps).b.read_to_end() ==> e.after_all(steps).b.task.ended(
            termination,
        ).errors.read_error is None,
{
    lemma_start_wf(e);
    law_runs_keep_invariant(e, steps);
    let t = e.after_all(steps);
    if t.a.read_to_end() {
        assert(t.a.taken[t.a.taken.len() - 1].msg is SendFinish);
    }
    if t.b.read_to_end() {
        assert(t.b.taken[t.b.taken.len() - 1].msg is SendFinish);
    }
}

/// When all links have failed, the users of both endpoints are told so, unless an endpoint had already ended
/// their part of the connection.
///
/// A connection without links ends at once, if no links can be added, and otherwise when its timeout occurs.
pub proof fn law_all_links_failed_reported(s: TaskState, flags: SendFlags, now: Instant)
    requires
        !s.links_available(),
        !s.is_closed(),
    ensures
        !s.chan.link_rx_open ==> s.ending(now) == Some(Termination::NoMoreLinks),
        s.handle_event(TaskEvent::NoLinksTimeout, flags, now) == (s, Some(Termination::NoLinksTimeout)),
        forall|termination: Termination|
            #![trigger s.ended(termination)]
            termination == Termination::NoMoreLinks || termination == Termination::NoLinksTimeout ==> {
                &&& s.ended(termination).errors.read_error == if s.errors.read_error == Some(
                    RecvError::TaskTerminated,
                ) {
                    Some(RecvError::AllLinksFailed)
                } else {
                    s.errors.read_error
                }
                &&& s.ended(termination).errors.write_error == if s.errors.write_error
                    == SendError::TaskTerminated {
                    SendError::AllLinksFailed
                } else {
                    s.errors.write_error
                }
            },
{
}

} // verus!
