//! How much data is on its way to the user of the remote endpoint.

use crate::agg::delivery::{data_from, received_reliable};
use crate::agg::effect::law_events_send_what_is_written;
use crate::agg::events::TaskEvent;
use crate::agg::laws::{carries, packet_msg};
use crate::agg::ready::SendFlags;
use crate::agg::rx::{lemma_msgs_size_add, msgs_size, stream_part, Place, ReceivedReliableMsg};
use crate::agg::state::TaskState;
use crate::agg::stream::{extends, law_events_keep_stream};
use crate::agg::tx::{packet_size, TxState};
use crate::msg::ReliableMsg;
use crate::seq::{seq_of, SeqNum};
use crate::time::Instant;
use vstd::prelude::*;

verus! {

/// Amount of data of the message by which a send buffer has grown, if it has.
pub open spec fn newly_sent(s: TxState, t: TxState) -> nat {
    if t.tx_seq == s.tx_seq {
        0
    } else {
        packet_size(t.packets.last())
    }
}

/// Amount of data that the remote endpoint reports as consumed by an event.
///
/// A report that is received repeatedly or that violates the protocol does not count.
pub open spec fn newly_consumed(s: TaskState, event: TaskEvent) -> nat {
    match received_reliable(event) {
        Some((msg, seq)) => consumed_by(s, msg, seq),
        None => 0,
    }
}

/// Amount of data that the remote endpoint reports as consumed by a message.
pub open spec fn consumed_by(s: TaskState, msg: ReliableMsg, seq: SeqNum) -> nat {
    match msg {
        ReliableMsg::Consumed(consumed) => match s.rx.place(seq) {
            Ok(Place::New(_)) if consumed <= s.tx.unconsumed => consumed as nat,
            _ => 0,
        },
        _ => 0,
    }
}

/// Whether a connection that has sent a stream, of which the remote endpoint has reported the specified
/// amount of data as consumed, counts the rest as not consumed.
pub open spec fn accounts(s: TxState, stream: Seq<ReliableMsg>, reported: nat) -> bool {
    &&& carries(s, stream, Set::full())
    &&& s.unconsumed + reported == data_from(stream, 0)
}

/// Appending a message to a stream adds its data.
pub proof fn lemma_data_from_push(stream: Seq<ReliableMsg>, msg: ReliableMsg)
    ensures
        data_from(stream.push(msg), 0) == data_from(stream, 0) + msg.spec_size(),
{
    let longer = stream.push(msg);
    let last = ReceivedReliableMsg { seq: seq_of(stream.len() as int), msg };
    assert(stream_part(longer, 0, longer.len() as int) =~= stream_part(stream, 0, stream.len() as int) + seq![last]);
    lemma_msgs_size_add(stream_part(stream, 0, stream.len() as int), seq![last]);
    reveal_with_fuel(msgs_size, 2);
    assert(seq![last].drop_first() =~= Seq::empty());
}

/// Whatever happens to a connection, the data that it has sent is either reported as consumed by the
/// remote endpoint or counted as not consumed.
///
/// As no more data is counted as not consumed than the receive buffer of the remote endpoint holds, this
/// is what keeps that buffer from overflowing.
pub proof fn law_sent_data_is_accounted(
    s: TaskState,
    stream: Seq<ReliableMsg>,
    reported: nat,
    event: TaskEvent,
    flags: SendFlags,
    now: Instant,
)
    requires
        s.wf(),
        s.links.len() <= usize::MAX,
        s.allows(flags),
        s.admits(event, flags),
        accounts(s.tx, stream, reported),
    ensures
        ({
            let t = s.handle_event(event, flags, now).0;
            let reported = reported + newly_consumed(s, event);
            ||| accounts(t.tx, stream, reported)
            ||| {
                &&& t.tx.packets.len() > 0
                &&& packet_msg(t.tx.packets.last()) is Some
                &&& accounts(t.tx, stream.push(packet_msg(t.tx.packets.last())->0), reported)
            }
        }),
{
    let t = s.handle_event(event, flags, now).0;
    law_events_keep_stream(s, stream, Set::full(), event, flags, now);
    law_events_send_what_is_written(s, event, flags, now);
    assert(extends(t.tx, stream, Set::full()));
    assert(seq_of(stream.len() as int + 1) != seq_of(stream.len() as int));
    if !carries(t.tx, stream, Set::full()) {
        lemma_data_from_push(stream, packet_msg(t.tx.packets.last())->0);
    }
}

} // verus!
