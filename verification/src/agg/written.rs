//! The data of the user within the messages that are sent.

use crate::agg::effect::{appended, proper};
use crate::agg::rx::{consumables, is_consumable, stream_part, ReceivedReliableMsg};
use crate::agg::state::{SendReq, TaskState};
use crate::agg::wire::stream_after;
use crate::msg::ReliableMsg;
use crate::peekable_mpsc::PeekableReceiver;
use bytes::Bytes;
use vstd::prelude::*;

verus! {

/// The data of the user that a message holds, if any.
pub open spec fn data_of(msg: ReliableMsg) -> Seq<Bytes> {
    match msg {
        ReliableMsg::Data(data) => seq![data],
        _ => Seq::empty(),
    }
}

/// The data of the user that messages hold, in order.
pub open spec fn data_in(msgs: Seq<ReliableMsg>) -> Seq<Bytes>
    decreases msgs.len(),
{
    if msgs.len() == 0 {
        Seq::empty()
    } else {
        data_in(msgs.drop_last()) + data_of(msgs.last())
    }
}

/// Received messages without their sequence numbers.
pub open spec fn msgs_of(received: Seq<ReceivedReliableMsg>) -> Seq<ReliableMsg> {
    received.map_values(|m: ReceivedReliableMsg| m.msg)
}

/// Data that waits to be sent.
pub open spec fn waiting(write_rx: PeekableReceiver<SendReq>) -> Seq<Bytes> {
    match write_rx.peeked {
        Some(SendReq::Send(data)) => seq![data],
        _ => Seq::empty(),
    }
}

/// Whether no data follows the end of data.
pub open spec fn finish_is_last(msgs: Seq<ReliableMsg>) -> bool {
    forall|i: int, j: int|
        0 <= i < j < msgs.len() && (#[trigger] msgs[i]) is SendFinish ==> !((#[trigger] msgs[j]) is Data)
}

/// Whether the stream that a connection sends holds the data that its user has written.
///
/// While data is accepted, all of it has been sent except that which waits. The end of data is sent only after
/// all data. Data is given up only if the remote endpoint does not want any.
pub open spec fn holds_written(s: TaskState, stream: Seq<ReliableMsg>, written: Seq<Bytes>) -> bool {
    &&& match s.write_rx {
        Some(write_rx) => data_in(stream) + waiting(write_rx) == written,
        None => {
            &&& data_in(stream).is_prefix_of(written)
            &&& (!s.chan.send_finish_sent ==> data_in(stream) == written)
        },
    }
    &&& forall|i: int|
        0 <= i < stream.len() && (#[trigger] stream[i]) is SendFinish ==> s.write_rx is None && data_in(stream)
            == written
    &&& finish_is_last(stream)
}

/// Appending a message appends its data.
pub proof fn lemma_data_push(msgs: Seq<ReliableMsg>, msg: ReliableMsg)
    ensures
        data_in(msgs.push(msg)) == data_in(msgs) + data_of(msg),
{
    assert(msgs.push(msg).drop_last() =~= msgs);
}

/// The data of messages in two parts is that of both parts.
pub proof fn lemma_data_add(a: Seq<ReliableMsg>, b: Seq<ReliableMsg>)
    ensures
        data_in(a + b) == data_in(a) + data_in(b),
    decreases b.len(),
{
    if b.len() == 0 {
        assert(a + b =~= a);
        assert(data_in(a) + data_in(b) =~= data_in(a));
    } else {
        lemma_data_add(a, b.drop_last());
        assert((a + b).drop_last() =~= a + b.drop_last());
        assert(data_in(a + b) =~= data_in(a) + data_in(b));
    }
}

/// Messages without data hold no data.
proof fn lemma_no_data(msgs: Seq<ReliableMsg>)
    requires
        forall|i: int| 0 <= i < msgs.len() ==> !((#[trigger] msgs[i]) is Data),
    ensures
        data_in(msgs) == Seq::<Bytes>::empty(),
    decreases msgs.len(),
{
    if msgs.len() > 0 {
        assert(!(msgs[msgs.len() - 1] is Data));
        assert forall|i: int| 0 <= i < msgs.drop_last().len() implies !((#[trigger] msgs.drop_last()[i]) is Data) by {
            assert(msgs.drop_last()[i] == msgs[i]);
        }
        lemma_no_data(msgs.drop_last());
        assert(data_in(msgs) =~= Seq::empty());
    }
}

/// A step that appends nothing improper keeps what the stream says of the data of the user.
pub proof fn lemma_holds_written(s: TaskState, t: TaskState, stream: Seq<ReliableMsg>, written: Seq<Bytes>)
    requires
        holds_written(s, stream, written),
        proper(s, t),
    ensures
        holds_written(t, stream_after(s, t, stream), written),
{
    let longer = stream_after(s, t, stream);
    match appended(s, t) {
        Some(msg) => {
            lemma_data_push(stream, msg);
            assert(longer == stream.push(msg));
            if let Some(write_rx) = s.write_rx {
                assert(data_in(stream) + waiting(write_rx) == written);
            }
            assert(data_in(stream) + Seq::<Bytes>::empty() =~= data_in(stream));
            assert forall|i: int, j: int|
                0 <= i < j < longer.len() && (#[trigger] longer[i]) is SendFinish implies !((
            #[trigger] longer[j]) is Data) by {
                assert(longer[i] == stream[i]);
                if j < stream.len() {
                    assert(longer[j] == stream[j]);
                }
            }
            assert forall|i: int| 0 <= i < longer.len() && (
            #[trigger] longer[i]) is SendFinish implies t.write_rx is None && data_in(longer) == written by {
                if i < stream.len() {
                    assert(longer[i] == stream[i]);
                }
            }
            if t.write_rx is Some {
                assert(data_in(longer) + waiting(t.write_rx->0) =~= written);
            } else {
                assert(data_in(longer) =~= data_in(stream));
            }
        },
        None => {
            assert(data_in(stream) + Seq::<Bytes>::empty() =~= data_in(stream));
            if let Some(write_rx) = s.write_rx {
                assert(data_in(stream).is_prefix_of(data_in(stream) + waiting(write_rx)));
            }
        },
    }
}

/// What is handed out to the user has been received.
proof fn lemma_consumable_source(msgs: Seq<ReceivedReliableMsg>, k: int) -> (i: int)
    requires
        0 <= k < consumables(msgs).len(),
    ensures
        0 <= i < msgs.len(),
        consumables(msgs)[k] == msgs[i],
    decreases msgs.len(),
{
    let rest = msgs.drop_first();
    if is_consumable(msgs[0].msg) && k == 0 {
        0
    } else {
        let first: int = if is_consumable(msgs[0].msg) {
            1
        } else {
            0
        };
        assert(consumables(msgs)[k] == consumables(rest)[k - first]);
        let i = lemma_consumable_source(rest, k - first);
        assert(rest[i] == msgs[i + 1]);
        i + 1
    }
}

/// No data is handed out to the user after the end of data.
proof fn lemma_consumables_finish(msgs: Seq<ReceivedReliableMsg>)
    requires
        finish_is_last(msgs_of(msgs)),
    ensures
        finish_is_last(msgs_of(consumables(msgs))),
    decreases msgs.len(),
{
    if msgs.len() > 0 {
        let rest = msgs.drop_first();
        let all = msgs_of(msgs);
        assert forall|i: int, j: int|
            0 <= i < j < msgs_of(rest).len() && (#[trigger] msgs_of(rest)[i]) is SendFinish implies !((
        #[trigger] msgs_of(rest)[j]) is Data) by {
            assert(msgs_of(rest)[i] == all[i + 1]);
            assert(msgs_of(rest)[j] == all[j + 1]);
        }
        lemma_consumables_finish(rest);
        let c = msgs_of(consumables(msgs));
        let d = msgs_of(consumables(rest));
        let first: int = if is_consumable(msgs[0].msg) {
            1
        } else {
            0
        };
        assert forall|i: int, j: int| 0 <= i < j < c.len() && (#[trigger] c[i]) is SendFinish implies !((
        #[trigger] c[j]) is Data) by {
            assert(c[j] == d[j - first]);
            if i >= first {
                assert(c[i] == d[i - first]);
            } else {
                assert(all[0] is SendFinish);
                let source = lemma_consumable_source(rest, j - first);
                assert(all[source + 1] == c[j]);
            }
        }
    }
}

/// The data of the user is that of the messages that are handed out to the user.
pub proof fn lemma_consumables_data(msgs: Seq<ReceivedReliableMsg>)
    ensures
        data_in(msgs_of(consumables(msgs))) == data_in(msgs_of(msgs)),
    decreases msgs.len(),
{
    if msgs.len() == 0 {
        assert(msgs_of(consumables(msgs)) =~= msgs_of(msgs));
    } else {
        let rest = msgs.drop_first();
        lemma_consumables_data(rest);
        let first = seq![msgs[0].msg];
        assert(msgs_of(msgs) =~= first + msgs_of(rest));
        lemma_data_add(first, msgs_of(rest));
        assert(first.drop_last() =~= Seq::empty());
        assert(data_in(first.drop_last()) == Seq::<Bytes>::empty());
        assert(data_in(first) =~= data_of(msgs[0].msg));
        if is_consumable(msgs[0].msg) {
            assert(msgs_of(consumables(msgs)) =~= first + msgs_of(consumables(rest)));
            lemma_data_add(first, msgs_of(consumables(rest)));
        } else {
            assert(msgs_of(consumables(msgs)) =~= msgs_of(consumables(rest)));
            assert(data_in(first) + data_in(msgs_of(rest)) =~= data_in(msgs_of(rest)));
        }
    }
}

/// The data that the user of the receiving endpoint has taken is the beginning of the data that has been
/// written. Once the user has taken the end of data, it is all of it.
pub proof fn lemma_taken_data(
    s: TaskState,
    stream: Seq<ReliableMsg>,
    written: Seq<Bytes>,
    taken: Seq<ReceivedReliableMsg>,
)
    requires
        holds_written(s, stream, written),
        taken.is_prefix_of(consumables(stream_part(stream, 0, stream.len() as int))),
    ensures
        data_in(msgs_of(taken)).is_prefix_of(written),
        taken.len() > 0 && taken.last().msg is SendFinish ==> data_in(msgs_of(taken)) == written,
{
    let part = stream_part(stream, 0, stream.len() as int);
    let all = consumables(part);
    let rest = all.skip(taken.len() as int);
    assert(msgs_of(part) =~= stream);
    lemma_consumables_data(part);
    assert(msgs_of(all) =~= msgs_of(taken) + msgs_of(rest));
    lemma_data_add(msgs_of(taken), msgs_of(rest));
    assert(data_in(msgs_of(taken)).is_prefix_of(data_in(stream)));
    if let Some(write_rx) = s.write_rx {
        assert(data_in(stream).is_prefix_of(data_in(stream) + waiting(write_rx)));
    }
    if taken.len() > 0 && taken.last().msg is SendFinish {
        let k = taken.len() - 1;
        lemma_consumables_finish(part);
        assert(msgs_of(all)[k] == taken.last().msg);
        assert forall|i: int| 0 <= i < msgs_of(rest).len() implies !((#[trigger] msgs_of(rest)[i]) is Data) by {
            assert(msgs_of(rest)[i] == msgs_of(all)[k + 1 + i]);
        }
        lemma_no_data(msgs_of(rest));
        assert(data_in(msgs_of(taken)) + Seq::<Bytes>::empty() =~= data_in(msgs_of(taken)));
        let source = lemma_consumable_source(part, k);
        assert(stream[source] is SendFinish);
    }
}

} // verus!
