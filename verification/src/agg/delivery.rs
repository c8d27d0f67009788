//! What the user of a connection receives.

use crate::agg::effect::law_events_send_what_is_written;
use crate::agg::events::{msg_termination, TaskEvent};
use crate::agg::laws::{delivered, law_user_gets_stream, lemma_consumables_add};
use crate::agg::link_int::LinkIntEvent;
use crate::agg::ready::SendFlags;
use crate::agg::recv::lemma_receive_reliable_wf;
use crate::agg::rx::{consumables, lemma_msgs_size_add, lemma_place_of_position, msgs_size, slots_size};
use crate::agg::rx::{is_consumable, stream_part, Place, ReceivedReliableMsg, RxState};
use crate::agg::rx::{leading, lemma_leading};
use crate::agg::state::{lemma_wf_buffers, TaskState};
use crate::msg::{LinkMsg, ReliableMsg};
use crate::seq::{lemma_seq_of_plus, lemma_steps_between_positions, seq_of, steps_between, SeqNum};
use crate::time::Instant;
use bytes::Bytes;
use vstd::prelude::*;

verus! {

/// Whether two receive buffers hold the same messages.
pub open spec fn same_received(a: RxState, b: RxState) -> bool {
    &&& a.rx_seq == b.rx_seq
    &&& a.slots == b.slots
    &&& a.consumable == b.consumable
}

/// The reliable message whose reception an event is, if it is one, and its sequence number.
pub open spec fn received_reliable(event: TaskEvent) -> Option<(ReliableMsg, SeqNum)> {
    match event {
        TaskEvent::LinkEvent { event: LinkIntEvent::Rx { msg, data }, .. } => ReliableMsg::of_link_msg(msg, data),
        _ => None,
    }
}

/// A reliable message that is received over a link is put into the receive buffer.
///
/// If it violates the protocol, nothing is.
#[verifier::rlimit(40)]
proof fn lemma_receive_reliable_rx(s: TaskState, id: usize, seq: SeqNum, msg: ReliableMsg, now: Instant)
    requires
        s.wf(),
    ensures
        same_received(s.receive_reliable(id, seq, msg, now).0.rx, s.rx) || same_received(
            s.receive_reliable(id, seq, msg, now).0.rx,
            s.rx.receive(seq, msg),
        ),
        s.receive_reliable(id, seq, msg, now).1 is Ok ==> same_received(
            s.receive_reliable(id, seq, msg, now).0.rx,
            s.rx.receive(seq, msg),
        ),
{
}

/// A link message that carries a reliable message is handled as such.
#[verifier::rlimit(40)]
pub proof fn lemma_receive_carried(
    s: TaskState,
    id: usize,
    msg: LinkMsg,
    data: Option<Bytes>,
    reliable: ReliableMsg,
    seq: SeqNum,
    now: Instant,
)
    requires
        ReliableMsg::of_link_msg(msg, data) == Some((reliable, seq)),
    ensures
        s.receive_msg(id, msg, data, now).0 == s.receive_reliable(id, seq, reliable, now).0,
        s.receive_msg(id, msg, data, now).1 is Ok <==> s.receive_reliable(id, seq, reliable, now).1 is Ok,
{
}

/// The event of receiving a message.
pub proof fn lemma_rx_event(
    s: TaskState,
    id: usize,
    msg: LinkMsg,
    data: Option<Bytes>,
    flags: SendFlags,
    now: Instant,
)
    ensures
        s.handle_link_event(id, LinkIntEvent::Rx { msg, data }, flags, now) == (
            s.receive_msg(id, msg, data, now).0,
            msg_termination(s.link(id as int).info.link_id, s.receive_msg(id, msg, data, now).1),
        ),
{
    reveal(TaskState::handle_link_event);
}

/// The reception of a reliable message over a link puts it into the receive buffer, unless it violates the
/// protocol.
proof fn lemma_link_reception_rx(
    s: TaskState,
    id: usize,
    msg: LinkMsg,
    data: Option<Bytes>,
    flags: SendFlags,
    now: Instant,
)
    requires
        s.wf(),
        ReliableMsg::of_link_msg(msg, data) is Some,
    ensures
        ({
            let (reliable, seq) = ReliableMsg::of_link_msg(msg, data)->0;
            let (t, termination) = s.handle_link_event(id, LinkIntEvent::Rx { msg, data }, flags, now);
            &&& same_received(t.rx, s.rx) || same_received(t.rx, s.rx.receive(seq, reliable))
            &&& (termination is None ==> same_received(t.rx, s.rx.receive(seq, reliable)))
        }),
{
    let (reliable, seq) = ReliableMsg::of_link_msg(msg, data)->0;
    lemma_receive_reliable_rx(s, id, seq, reliable, now);
    lemma_receive_carried(s, id, msg, data, reliable, seq, now);
    lemma_rx_event(s, id, msg, data, flags, now);
}

/// The reception of a reliable message puts it into the receive buffer, unless it violates the protocol.
proof fn lemma_reception_rx(s: TaskState, event: TaskEvent, flags: SendFlags, now: Instant)
    requires
        s.wf(),
        received_reliable(event) is Some,
    ensures
        ({
            let (msg, seq) = received_reliable(event)->0;
            let (t, termination) = s.handle_event(event, flags, now);
            &&& same_received(t.rx, s.rx) || same_received(t.rx, s.rx.receive(seq, msg))
            &&& (termination is None ==> same_received(t.rx, s.rx.receive(seq, msg)))
        }),
{
    if let TaskEvent::LinkEvent { id, event: LinkIntEvent::Rx { msg, data } } = event {
        lemma_link_reception_rx(s, id, msg, data, flags, now);
    }
}

/// What has been delivered depends on the messages in the receive buffer only.
proof fn lemma_same_delivered(
    history: Seq<ReceivedReliableMsg>,
    a: RxState,
    b: RxState,
    stream: Seq<ReliableMsg>,
    n: int,
)
    requires
        delivered(history, a, stream, n),
        same_received(a, b),
    ensures
        delivered(history, b, stream, n),
{
}

/// Whatever happens to a connection, its user gets the messages that the remote endpoint sends in the
/// order in which they were sent, each exactly once.
///
/// If the event is the reception of a message, it is message `i` of the stream that the remote endpoint
/// sends. It may be received in any order and any number of times, but must not be further away from
/// the position `n` up to which the stream has been received than sequence numbers can tell apart.
#[verifier::rlimit(40)]
pub proof fn law_events_deliver_stream(
    history: Seq<ReceivedReliableMsg>,
    s: TaskState,
    stream: Seq<ReliableMsg>,
    n: int,
    i: int,
    event: TaskEvent,
    flags: SendFlags,
    now: Instant,
)
    requires
        s.wf(),
        s.admits(event, flags),
        delivered(history, s.rx, stream, n),
        received_reliable(event) matches Some((msg, seq)) ==> {
            &&& 0 <= i < stream.len()
            &&& n - SeqNum::USABLE_INTERVAL <= i <= n + SeqNum::USABLE_INTERVAL
            &&& msg == stream[i]
            &&& seq == seq_of(i)
        },
    ensures
        ({
            let t = s.handle_event(event, flags, now).0;
            &&& delivered(history, t.rx, stream, n + steps_between(t.rx.rx_seq, s.rx.rx_seq))
            &&& (received_reliable(event) is None ==> same_received(t.rx, s.rx))
        }),
{
    let t = s.handle_event(event, flags, now).0;
    assert(steps_between(s.rx.rx_seq, s.rx.rx_seq) == 0);
    if let Some((msg, seq)) = received_reliable(event) {
        lemma_wf_buffers(s);
        lemma_reception_rx(s, event, flags, now);
        law_user_gets_stream(history, s.rx, s.info.cfg.recv_buffer, stream, n, i);
        if same_received(t.rx, s.rx) {
            lemma_same_delivered(history, s.rx, t.rx, stream, n);
        } else {
            let received = s.rx.receive(seq, msg);
            lemma_same_delivered(
                history,
                received,
                t.rx,
                stream,
                n + steps_between(received.rx_seq, s.rx.rx_seq),
            );
        }
    } else {
        law_events_send_what_is_written(s, event, flags, now);
        lemma_same_delivered(history, s.rx, t.rx, stream, n);
    }
}

/// Whether the message at a position of the stream has been received, where `n` is the position up to which
/// the stream has been received completely.
pub open spec fn has_received(rx: RxState, n: int, p: int) -> bool {
    0 <= p && (p < n || (p - n < rx.slots.len() && rx.slots[p - n] is Some))
}

/// What has been received stays received and so does the message that is received now.
pub proof fn lemma_receive_positions(rx: RxState, stream: Seq<ReliableMsg>, n: int, i: int)
    requires
        rx.slots_wf(),
        0 <= n,
        rx.rx_seq == seq_of(n),
        0 <= i < stream.len(),
        n - SeqNum::USABLE_INTERVAL <= i <= n + SeqNum::USABLE_INTERVAL,
    ensures
        ({
            let t = rx.receive(seq_of(i), stream[i]);
            let m = n + steps_between(t.rx_seq, rx.rx_seq);
            &&& has_received(t, m, i)
            &&& forall|p: int| has_received(rx, n, p) ==> #[trigger] has_received(t, m, p)
        }),
{
    lemma_place_of_position(rx, n, i);
    let stored = match rx.place(seq_of(i)) {
        Ok(Place::New(offset)) => rx.store(offset as int, ReceivedReliableMsg { seq: seq_of(i), msg: stream[i] }),
        _ => rx,
    };
    let t = stored.forward();
    let count = leading(stored.slots).len() as int;
    lemma_leading(stored.slots);
    lemma_seq_of_plus(n, count);
    lemma_steps_between_positions(n, n + count);
    let m = n + count;
    assert(t.slots =~= stored.slots.skip(count));
    assert forall|p: int| has_received(stored, n, p) implies #[trigger] has_received(t, m, p) by {
        if p >= m {
            assert(t.slots[p - m] == stored.slots[p - n]);
        }
    }
    assert forall|p: int| has_received(rx, n, p) implies #[trigger] has_received(t, m, p) by {
        assert(has_received(stored, n, p));
    }
    assert(has_received(stored, n, i));
}

/// Whatever happens to a connection, what it has received of the stream stays received. So does the message
/// that is received now and that will be acknowledged, unless it violates the protocol and ends the connection.
#[verifier::rlimit(40)]
pub proof fn law_received_stays_received(
    s: TaskState,
    stream: Seq<ReliableMsg>,
    n: int,
    i: int,
    event: TaskEvent,
    flags: SendFlags,
    now: Instant,
)
    requires
        s.wf(),
        s.admits(event, flags),
        0 <= n,
        s.rx.rx_seq == seq_of(n),
        received_reliable(event) matches Some((msg, seq)) ==> {
            &&& 0 <= i < stream.len()
            &&& n - SeqNum::USABLE_INTERVAL <= i <= n + SeqNum::USABLE_INTERVAL
            &&& msg == stream[i]
            &&& seq == seq_of(i)
        },
    ensures
        ({
            let (t, termination) = s.handle_event(event, flags, now);
            let m = n + steps_between(t.rx.rx_seq, s.rx.rx_seq);
            &&& forall|p: int| has_received(s.rx, n, p) ==> #[trigger] has_received(t.rx, m, p)
            &&& (received_reliable(event) is Some && termination is None ==> has_received(t.rx, m, i))
        }),
{
    assert(steps_between(s.rx.rx_seq, s.rx.rx_seq) == 0);
    lemma_wf_buffers(s);
    if let Some((msg, seq)) = received_reliable(event) {
        lemma_reception_rx(s, event, flags, now);
        lemma_receive_positions(s.rx, stream, n, i);
        let t = s.handle_event(event, flags, now).0;
        let m = n + steps_between(t.rx.rx_seq, s.rx.rx_seq);
        assert forall|p: int| has_received(s.rx, n, p) implies #[trigger] has_received(t.rx, m, p) by {
            assert(has_received(
                s.rx.receive(seq, msg),
                n + steps_between(s.rx.receive(seq, msg).rx_seq, s.rx.rx_seq),
                p,
            ));
        }
    } else {
        law_events_send_what_is_written(s, event, flags, now);
    }
}

/// The arrival of a message of a stream.
pub struct Arrival {
    /// Index of the link over which it arrives.
    pub id: usize,
    /// Position of the message.
    pub position: int,
    /// Time of arrival.
    pub now: Instant,
}

/// A connection after messages of a stream have arrived in the specified order.
pub open spec fn after_arrivals(s: TaskState, stream: Seq<ReliableMsg>, arrivals: Seq<Arrival>) -> TaskState
    decreases arrivals.len(),
{
    if arrivals.len() == 0 {
        s
    } else {
        let a = arrivals.last();
        after_arrivals(s, stream, arrivals.drop_last()).receive_reliable(
            a.id,
            seq_of(a.position),
            stream[a.position],
            a.now,
        ).0
    }
}

/// Whether each of the messages arrives over a link that is present and none violates the protocol.
pub open spec fn all_accepted(s: TaskState, stream: Seq<ReliableMsg>, arrivals: Seq<Arrival>) -> bool
    decreases arrivals.len(),
{
    arrivals.len() > 0 ==> {
        let a = arrivals.last();
        let before = after_arrivals(s, stream, arrivals.drop_last());
        &&& all_accepted(s, stream, arrivals.drop_last())
        &&& before.has(a.id as int)
        &&& before.receive_reliable(a.id, seq_of(a.position), stream[a.position], a.now).1 is Ok
    }
}

/// Whether the last slot holds a message.
pub open spec fn no_vacant_end(rx: RxState) -> bool {
    rx.slots.len() > 0 ==> rx.slots.last() is Some
}

/// Receiving a message leaves no empty slot at the end.
proof fn lemma_no_vacant_end(rx: RxState, seq: SeqNum, msg: ReliableMsg)
    requires
        no_vacant_end(rx),
    ensures
        no_vacant_end(rx.receive(seq, msg)),
{
    let stored = match rx.place(seq) {
        Ok(Place::New(offset)) => rx.store(offset as int, ReceivedReliableMsg { seq, msg }),
        _ => rx,
    };
    lemma_leading(stored.slots);
}

/// The connection follows the stream and has received all messages that have arrived.
proof fn lemma_arrivals(
    history: Seq<ReceivedReliableMsg>,
    s: TaskState,
    stream: Seq<ReliableMsg>,
    n: int,
    arrivals: Seq<Arrival>,
) -> (m: int)
    requires
        s.wf(),
        delivered(history, s.rx, stream, n),
        no_vacant_end(s.rx),
        stream.len() <= n + SeqNum::USABLE_INTERVAL,
        forall|k: int| 0 <= k < arrivals.len() ==> n <= (#[trigger] arrivals[k]).position < stream.len(),
        all_accepted(s, stream, arrivals),
    ensures
        n <= m,
        after_arrivals(s, stream, arrivals).wf(),
        delivered(history, after_arrivals(s, stream, arrivals).rx, stream, m),
        no_vacant_end(after_arrivals(s, stream, arrivals).rx),
        forall|k: int|
            0 <= k < arrivals.len() ==> has_received(
                after_arrivals(s, stream, arrivals).rx,
                m,
                (#[trigger] arrivals[k]).position,
            ),
    decreases arrivals.len(),
{
    if arrivals.len() == 0 {
        n
    } else {
        let front = arrivals.drop_last();
        assert forall|k: int| 0 <= k < front.len() implies n <= (#[trigger] front[k]).position < stream.len() by {
            assert(front[k] == arrivals[k]);
        }
        let m = lemma_arrivals(history, s, stream, n, front);
        let before = after_arrivals(s, stream, front);
        let a = arrivals.last();
        let i = a.position;
        assert(a == arrivals[arrivals.len() - 1]);
        let t = before.receive_reliable(a.id, seq_of(i), stream[i], a.now).0;
        let received = before.rx.receive(seq_of(i), stream[i]);
        let l = m + steps_between(received.rx_seq, before.rx.rx_seq);
        lemma_wf_buffers(before);
        lemma_receive_reliable_wf(before, a.id, seq_of(i), stream[i], a.now);
        lemma_receive_reliable_rx(before, a.id, seq_of(i), stream[i], a.now);
        law_user_gets_stream(history, before.rx, before.info.cfg.recv_buffer, stream, m, i);
        lemma_receive_positions(before.rx, stream, m, i);
        lemma_no_vacant_end(before.rx, seq_of(i), stream[i]);
        lemma_same_delivered(history, received, t.rx, stream, l);
        assert forall|k: int| 0 <= k < arrivals.len() implies has_received(
            t.rx,
            l,
            (#[trigger] arrivals[k]).position,
        ) by {
            if k < front.len() {
                assert(front[k] == arrivals[k]);
                assert(has_received(before.rx, m, arrivals[k].position));
                assert(has_received(received, l, arrivals[k].position));
            }
        }
        l
    }
}

/// If the messages of a stream from some position on arrive in any order and over any links, each at least once
/// and all are accepted, they have all been received in the end. Nothing remains in the slots and exactly the
/// messages for the user among them have become ready, in the order of the stream and each exactly once.
pub proof fn law_any_order_of_arrival(
    history: Seq<ReceivedReliableMsg>,
    s: TaskState,
    stream: Seq<ReliableMsg>,
    n: int,
    arrivals: Seq<Arrival>,
)
    requires
        s.wf(),
        delivered(history, s.rx, stream, n),
        no_vacant_end(s.rx),
        stream.len() <= n + SeqNum::USABLE_INTERVAL,
        forall|k: int| 0 <= k < arrivals.len() ==> n <= (#[trigger] arrivals[k]).position < stream.len(),
        forall|i: int|
            #![trigger stream[i]]
            n <= i < stream.len() ==> exists|k: int|
                0 <= k < arrivals.len() && (#[trigger] arrivals[k]).position == i,
        all_accepted(s, stream, arrivals),
    ensures
        ({
            let t = after_arrivals(s, stream, arrivals);
            &&& t.rx.rx_seq == seq_of(stream.len() as int)
            &&& t.rx.slots.len() == 0
            &&& t.rx.consumable == s.rx.consumable + consumables(stream_part(stream, n, stream.len() as int))
        }),
{
    let m = lemma_arrivals(history, s, stream, n, arrivals);
    let t = after_arrivals(s, stream, arrivals);
    lemma_wf_buffers(t);
    if m < stream.len() {
        assert(stream[m] == stream[m]);
        let k = choose|k: int| 0 <= k < arrivals.len() && (#[trigger] arrivals[k]).position == m;
        assert(has_received(t.rx, m, arrivals[k].position));
    }
    let before = stream_part(stream, 0, n);
    let part = stream_part(stream, n, stream.len() as int);
    lemma_consumables_add(before, part);
    assert(stream_part(stream, 0, stream.len() as int) =~= before + part);
    assert(history + t.rx.consumable == (history + s.rx.consumable) + consumables(part));
    assert(t.rx.consumable =~= (history + t.rx.consumable).skip(history.len() as int));
    assert(s.rx.consumable + consumables(part) =~= ((history + s.rx.consumable) + consumables(part)).skip(
        history.len() as int,
    ));
}

/// Amount of data of the messages of a stream from position `from` on.
pub open spec fn data_from(stream: Seq<ReliableMsg>, from: int) -> nat {
    msgs_size(stream_part(stream, from, stream.len() as int))
}

/// The data of all messages is handed out to the user.
pub proof fn lemma_consumables_size(msgs: Seq<ReceivedReliableMsg>)
    ensures
        msgs_size(consumables(msgs)) == msgs_size(msgs),
    decreases msgs.len(),
{
    if msgs.len() > 0 {
        lemma_consumables_size(msgs.drop_first());
        let first: Seq<ReceivedReliableMsg> = if is_consumable(msgs[0].msg) {
            seq![msgs[0]]
        } else {
            Seq::empty()
        };
        lemma_msgs_size_add(first, consumables(msgs.drop_first()));
        reveal_with_fuel(msgs_size, 2);
        assert(seq![msgs[0]].drop_first() =~= Seq::empty());
    }
}

/// The data in the slots, which hold messages of a stream from position `n` on, and the data of a message
/// that is not there is part of the data of the stream.
proof fn lemma_slots_in_stream(
    slots: Seq<Option<ReceivedReliableMsg>>,
    stream: Seq<ReliableMsg>,
    n: int,
    i: int,
)
    requires
        0 <= n <= i < stream.len(),
        i - n < slots.len() ==> slots[i - n] is None,
        forall|k: int|
            0 <= k < slots.len() && slots[k] is Some ==> n + k < stream.len() && (#[trigger] slots[k])->0.msg
                == stream[n + k],
    ensures
        slots_size(slots) + stream[i].spec_size() <= data_from(stream, n),
    decreases stream.len() - n,
{
    let part = stream_part(stream, n, stream.len() as int);
    let rest = slots.drop_first();
    assert(part.drop_first() =~= stream_part(stream, n + 1, stream.len() as int));
    if slots.len() > 0 && i > n {
        assert forall|k: int| 0 <= k < rest.len() && rest[k] is Some implies n + 1 + k < stream.len() && (
        #[trigger] rest[k])->0.msg == stream[n + 1 + k] by {
            assert(rest[k] == slots[k + 1]);
        }
        lemma_slots_in_stream(rest, stream, n + 1, i);
    } else if i > n {
        lemma_slots_in_stream(slots, stream, n + 1, i);
    } else if slots.len() > 0 {
        assert forall|k: int| 0 <= k < rest.len() && rest[k] is Some implies n + 1 + k < stream.len() && (
        #[trigger] rest[k])->0.msg == stream[n + 1 + k] by {
            assert(rest[k] == slots[k + 1]);
        }
        lemma_slots_fit_stream(rest, stream, n + 1);
    }
}

/// The data in the slots, which hold messages of a stream from position `n` on, is part of the data of
/// the stream.
proof fn lemma_slots_fit_stream(slots: Seq<Option<ReceivedReliableMsg>>, stream: Seq<ReliableMsg>, n: int)
    requires
        0 <= n <= stream.len(),
        forall|k: int|
            0 <= k < slots.len() && slots[k] is Some ==> n + k < stream.len() && (#[trigger] slots[k])->0.msg
                == stream[n + k],
    ensures
        slots_size(slots) <= data_from(stream, n),
    decreases slots.len(),
{
    if slots.len() > 0 {
        let rest = slots.drop_first();
        if n < stream.len() {
            let part = stream_part(stream, n, stream.len() as int);
            assert(part.drop_first() =~= stream_part(stream, n + 1, stream.len() as int));
            assert forall|k: int| 0 <= k < rest.len() && rest[k] is Some implies n + 1 + k < stream.len() && (
            #[trigger] rest[k])->0.msg == stream[n + 1 + k] by {
                assert(rest[k] == slots[k + 1]);
            }
            lemma_slots_fit_stream(rest, stream, n + 1);
        } else {
            assert forall|k: int| 0 <= k < rest.len() && rest[k] is Some implies n + k < stream.len() && (
            #[trigger] rest[k])->0.msg == stream[n + k] by {
                assert(rest[k] == slots[k + 1]);
            }
            lemma_slots_fit_stream(rest, stream, n);
        }
    }
}

/// If the remote endpoint has sent no more data than the receive buffer holds in addition to the data that
/// the user has taken, none of its messages overflows the receive buffer.
pub proof fn law_no_overflow(
    history: Seq<ReceivedReliableMsg>,
    rx: RxState,
    recv_buffer: u32,
    stream: Seq<ReliableMsg>,
    n: int,
    i: int,
)
    requires
        rx.wf(recv_buffer),
        delivered(history, rx, stream, n),
        data_from(stream, 0) <= msgs_size(history) + recv_buffer,
        0 <= i < stream.len(),
        n - SeqNum::USABLE_INTERVAL <= i <= n + SeqNum::USABLE_INTERVAL,
        rx.place(seq_of(i)) matches Ok(Place::New(_)),
    ensures
        !rx.overflows(stream[i], recv_buffer),
{
    lemma_place_of_position(rx, n, i);
    let before = stream_part(stream, 0, n);
    let after = stream_part(stream, n, stream.len() as int);
    assert(stream_part(stream, 0, stream.len() as int) =~= before + after);
    lemma_msgs_size_add(before, after);
    lemma_consumables_size(before);
    lemma_msgs_size_add(history, rx.consumable);
    lemma_slots_in_stream(rx.slots, stream, n, i);
}

} // verus!
