//! Flow control between both endpoints: what is reported as consumed has been consumed.

use crate::agg::account::newly_consumed;
use crate::agg::delivery::{data_from, has_received, lemma_consumables_size, lemma_receive_carried, lemma_rx_event};
use crate::agg::effect::{appended, proper};
use crate::agg::events::TaskEvent;
use crate::agg::laws::delivered;
use crate::agg::link_int::LinkIntEvent;
use crate::agg::ready::SendFlags;
use crate::agg::rx::{lemma_msgs_size_add, msgs_size, stream_part, Place, ReceivedReliableMsg, RxState};
use crate::agg::state::TaskState;
use crate::agg::wire::stream_after;
use crate::error::ProtocolError;
use crate::msg::{LinkMsg, ReliableMsg};
use crate::seq::SeqNum;
use crate::time::Instant;
use bytes::Bytes;
use vstd::prelude::*;

verus! {

/// Amount of data that a message reports as consumed.
pub open spec fn reported_by(msg: ReliableMsg) -> nat {
    match msg {
        ReliableMsg::Consumed(size) => size as nat,
        _ => 0,
    }
}

/// Amount of data that messages report as consumed.
pub open spec fn reported_in(msgs: Seq<ReliableMsg>) -> nat
    decreases msgs.len(),
{
    if msgs.len() == 0 {
        0
    } else {
        reported_in(msgs.drop_last()) + reported_by(msgs.last())
    }
}

/// Amount of data that those messages of a stream that have been received report as consumed.
pub open spec fn heard_in(msgs: Seq<ReliableMsg>, rx: RxState, n: int) -> nat
    decreases msgs.len(),
{
    if msgs.len() == 0 {
        0
    } else {
        heard_in(msgs.drop_last(), rx, n) + (if has_received(rx, n, msgs.len() - 1) {
            reported_by(msgs.last())
        } else {
            0
        })
    }
}

/// Appending a message appends its report.
proof fn lemma_reported_push(msgs: Seq<ReliableMsg>, msg: ReliableMsg)
    ensures
        reported_in(msgs.push(msg)) == reported_in(msgs) + reported_by(msg),
{
    assert(msgs.push(msg).drop_last() =~= msgs);
}

/// No more is heard than has been reported.
pub proof fn lemma_heard_was_reported(msgs: Seq<ReliableMsg>, rx: RxState, n: int)
    ensures
        heard_in(msgs, rx, n) <= reported_in(msgs),
    decreases msgs.len(),
{
    if msgs.len() > 0 {
        lemma_heard_was_reported(msgs.drop_last(), rx, n);
    }
}

/// What has been heard stays heard when more messages are sent.
pub proof fn lemma_heard_of_longer(msgs: Seq<ReliableMsg>, longer: Seq<ReliableMsg>, rx: RxState, n: int)
    requires
        msgs.is_prefix_of(longer),
    ensures
        heard_in(msgs, rx, n) <= heard_in(longer, rx, n),
    decreases longer.len(),
{
    if longer.len() > msgs.len() {
        assert(msgs.is_prefix_of(longer.drop_last()));
        lemma_heard_of_longer(msgs, longer.drop_last(), rx, n);
    } else {
        assert(msgs =~= longer);
    }
}

/// What has been heard stays heard when more messages are received.
pub proof fn lemma_heard_stays(msgs: Seq<ReliableMsg>, rx: RxState, n: int, rx2: RxState, n2: int)
    requires
        forall|p: int| has_received(rx, n, p) ==> #[trigger] has_received(rx2, n2, p),
    ensures
        heard_in(msgs, rx, n) <= heard_in(msgs, rx2, n2),
    decreases msgs.len(),
{
    if msgs.len() > 0 {
        lemma_heard_stays(msgs.drop_last(), rx, n, rx2, n2);
        assert(has_received(rx, n, msgs.len() - 1) ==> has_received(rx2, n2, msgs.len() - 1));
    }
}

/// A message that is received for the first time is heard in addition.
pub proof fn lemma_heard_grows(msgs: Seq<ReliableMsg>, rx: RxState, n: int, rx2: RxState, n2: int, i: int)
    requires
        forall|p: int| has_received(rx, n, p) ==> #[trigger] has_received(rx2, n2, p),
        0 <= i < msgs.len(),
        !has_received(rx, n, i),
        has_received(rx2, n2, i),
    ensures
        heard_in(msgs, rx, n) + reported_by(msgs[i]) <= heard_in(msgs, rx2, n2),
    decreases msgs.len(),
{
    let last = msgs.len() - 1;
    assert(has_received(rx, n, last) ==> has_received(rx2, n2, last));
    if i == last {
        lemma_heard_stays(msgs.drop_last(), rx, n, rx2, n2);
    } else {
        lemma_heard_grows(msgs.drop_last(), rx, n, rx2, n2, i);
        assert(msgs.drop_last()[i] == msgs[i]);
    }
}

/// A report that counts does not violate the protocol.
pub proof fn lemma_report_accepted(s: TaskState, event: TaskEvent, flags: SendFlags, now: Instant)
    requires
        newly_consumed(s, event) > 0,
    ensures
        s.handle_event(event, flags, now).1 is None,
{
    if let TaskEvent::LinkEvent { id, event: LinkIntEvent::Rx { msg, data } } = event {
        lemma_rx_event(s, id, msg, data, flags, now);
        if let Some((ReliableMsg::Consumed(consumed), seq)) = ReliableMsg::of_link_msg(msg, data) {
            lemma_receive_carried(s, id, msg, data, ReliableMsg::Consumed(consumed), seq, now);
            lemma_report_received(s, id, seq, consumed, now);
            lemma_carried_is_no_termination(s, id, msg, data, now);
        }
    }
}

/// A report of no more than is counted as not consumed is accepted.
proof fn lemma_report_received(s: TaskState, id: usize, seq: SeqNum, consumed: u32, now: Instant)
    requires
        s.rx.place(seq) matches Ok(Place::New(_)),
        consumed <= s.tx.unconsumed,
    ensures
        s.receive_reliable(id, seq, ReliableMsg::Consumed(consumed), now).1 is Ok,
{
}

/// A reliable message does not request termination.
proof fn lemma_carried_is_no_termination(s: TaskState, id: usize, msg: LinkMsg, data: Option<Bytes>, now: Instant)
    requires
        ReliableMsg::of_link_msg(msg, data) is Some,
    ensures
        s.receive_msg(id, msg, data, now).1 != Ok::<bool, ProtocolError>(true),
{
}

/// Whether the data that the user has taken is the data reported as consumed and the data that is still to be
/// reported.
pub open spec fn reports_taken(s: TaskState, stream: Seq<ReliableMsg>, taken: Seq<ReceivedReliableMsg>) -> bool {
    reported_in(stream) + s.rx.consumed == msgs_size(taken)
}

/// All data that the user takes is reported to the remote endpoint as consumed, or still to be reported.
pub proof fn law_consumed_is_reported(
    s: TaskState,
    t: TaskState,
    stream: Seq<ReliableMsg>,
    taken: Seq<ReceivedReliableMsg>,
)
    requires
        reports_taken(s, stream, taken),
        proper(s, t),
        s.rx.consumed <= u32::MAX,
    ensures
        reports_taken(t, stream_after(s, t, stream), taken),
{
    if let Some(msg) = appended(s, t) {
        lemma_reported_push(stream, msg);
    }
}

/// Data that the user takes now is to be reported.
pub proof fn law_taken_is_to_be_reported(s: TaskState, stream: Seq<ReliableMsg>, taken: Seq<ReceivedReliableMsg>)
    requires
        reports_taken(s, stream, taken),
        s.rx.consumable.len() > 0,
        s.rx.consumed + s.rx.consumable[0].msg.spec_size() <= u64::MAX,
    ensures
        reports_taken(s.consume().0, stream, taken.push(s.rx.consumable[0])),
{
    let last = seq![s.rx.consumable[0]];
    assert(taken.push(s.rx.consumable[0]) =~= taken + last);
    lemma_msgs_size_add(taken, last);
    reveal_with_fuel(msgs_size, 2);
    assert(last.drop_first() =~= Seq::empty());
}

/// No more data is taken than has been sent.
pub proof fn lemma_taken_size(
    taken: Seq<ReceivedReliableMsg>,
    rx: RxState,
    stream: Seq<ReliableMsg>,
    n: int,
)
    requires
        delivered(taken, rx, stream, n),
    ensures
        msgs_size(taken) + msgs_size(rx.consumable) <= data_from(stream, 0),
{
    let before = stream_part(stream, 0, n);
    let after = stream_part(stream, n, stream.len() as int);
    assert(stream_part(stream, 0, stream.len() as int) =~= before + after);
    lemma_msgs_size_add(before, after);
    lemma_consumables_size(before);
    lemma_msgs_size_add(taken, rx.consumable);
}

} // verus!
