//! Buffer of received reliable messages.
//!
//! Messages arrive over multiple links and thus out of order. They are put back into
//! order by their sequence numbers and each one is handed out exactly once.

use crate::cfg::Cfg;
use crate::error::ProtocolError;
use crate::msg::ReliableMsg;
use crate::seq::{seq_of, signed_steps, steps_between, SeqNum};
use crate::seq::{law_order_follows_stream, lemma_seq_of_plus, lemma_steps_between_positions};
use std::collections::VecDeque;
use vstd::prelude::*;

verus! {

/// Received reliable message.
#[derive(Debug)]
pub struct ReceivedReliableMsg {
    /// Sequence number.
    pub seq: SeqNum,
    /// Message.
    pub msg: ReliableMsg,
}

/// Buffer of received reliable messages.
#[derive(Debug)]
pub struct ReceiveBuffer {
    /// Next data sequence number for handing out.
    pub rx_seq: SeqNum,
    /// Received message parts, with sequence numbers starting at `rx_seq`.
    pub rxed_reliable: VecDeque<Option<ReceivedReliableMsg>>,
    /// Received data message parts, ready for consumption.
    pub rxed_reliable_consumable: VecDeque<ReceivedReliableMsg>,
    /// Sum of size of all buffers in `rxed_reliable` and `rxed_reliable_consumable`.
    pub rxed_reliable_size: u64,
    /// Size of data that has been consumed since last acknowledgement.
    pub rxed_reliable_consumed_since_last_ack: u64,
    /// Forces acking consumed data.
    pub rxed_reliable_consumed_force_ack: bool,
}

/// Mathematical model of the buffer of received reliable messages.
#[verifier::ext_equal]
pub struct RxState {
    /// Next data sequence number for handing out.
    pub rx_seq: SeqNum,
    /// Received messages, with sequence numbers starting at `rx_seq`.
    pub slots: Seq<Option<ReceivedReliableMsg>>,
    /// Messages ready for consumption.
    pub consumable: Seq<ReceivedReliableMsg>,
    /// Size of all buffered data.
    pub size: u64,
    /// Size of data that has been consumed since last acknowledgement.
    pub consumed: u64,
    /// Forces acking consumed data.
    pub force_ack: bool,
}

/// What a sequence number of a received message tells.
#[derive(Debug, Clone, Copy, PartialEq, Eq, Structural)]
pub enum Place {
    /// The message has already been received.
    Known,
    /// The message is new and belongs to the slot with this index.
    New(usize),
}

/// Whether a message is handed out to the user.
///
/// All other messages take effect when they are received.
pub open spec fn is_consumable(msg: ReliableMsg) -> bool {
    msg is Data || msg is SendFinish
}

/// Size of the data in a slot.
pub open spec fn slot_size(slot: Option<ReceivedReliableMsg>) -> nat {
    match slot {
        Some(m) => m.msg.spec_size(),
        None => 0,
    }
}

/// Size of the data in all slots.
pub open spec fn slots_size(slots: Seq<Option<ReceivedReliableMsg>>) -> nat
    decreases slots.len(),
{
    if slots.len() == 0 {
        0
    } else {
        slot_size(slots[0]) + slots_size(slots.drop_first())
    }
}

/// Size of the data of all messages ready for consumption.
pub open spec fn msgs_size(msgs: Seq<ReceivedReliableMsg>) -> nat
    decreases msgs.len(),
{
    if msgs.len() == 0 {
        0
    } else {
        msgs[0].msg.spec_size() + msgs_size(msgs.drop_first())
    }
}

/// Number of slots that hold a message.
pub open spec fn filled_count(slots: Seq<Option<ReceivedReliableMsg>>) -> nat
    decreases slots.len(),
{
    if slots.len() == 0 {
        0
    } else {
        (if slots[0] is Some {
            1nat
        } else {
            0nat
        }) + filled_count(slots.drop_first())
    }
}

/// The messages in the filled slots that come before the first empty slot.
pub open spec fn leading(slots: Seq<Option<ReceivedReliableMsg>>) -> Seq<ReceivedReliableMsg>
    decreases slots.len(),
{
    if slots.len() > 0 && slots[0] is Some {
        seq![slots[0]->0] + leading(slots.drop_first())
    } else {
        Seq::empty()
    }
}

/// The messages that are handed out to the user, in order.
pub open spec fn consumables(msgs: Seq<ReceivedReliableMsg>) -> Seq<ReceivedReliableMsg>
    decreases msgs.len(),
{
    if msgs.len() == 0 {
        Seq::empty()
    } else {
        (if is_consumable(msgs[0].msg) {
            seq![msgs[0]]
        } else {
            Seq::empty()
        }) + consumables(msgs.drop_first())
    }
}

impl View for ReceiveBuffer {
    type V = RxState;

    open spec fn view(&self) -> RxState {
        RxState {
            rx_seq: self.rx_seq,
            slots: self.rxed_reliable@,
            consumable: self.rxed_reliable_consumable@,
            size: self.rxed_reliable_size,
            consumed: self.rxed_reliable_consumed_since_last_ack,
            force_ack: self.rxed_reliable_consumed_force_ack,
        }
    }
}

impl RxState {
    /// The empty buffer.
    pub open spec fn empty() -> RxState {
        RxState {
            rx_seq: seq_of(0),
            slots: Seq::empty(),
            consumable: Seq::empty(),
            size: 0,
            consumed: 0,
            force_ack: false,
        }
    }

    /// Invariant of the buffer.
    ///
    /// Each slot holds the message with its sequence number, the first slot is empty, only messages
    /// for the user are ready for consumption and the size is that of all buffered data.
    pub open spec fn wf(self, recv_buffer: u32) -> bool {
        &&& self.slots_wf()
        &&& (self.slots.len() > 0 ==> self.slots[0] is None)
        &&& self.consumable_wf()
        &&& self.size == slots_size(self.slots) + msgs_size(self.consumable)
        &&& self.size <= recv_buffer
    }

    /// Each slot holds the message with its sequence number and there are not too many slots.
    pub open spec fn slots_wf(self) -> bool {
        &&& self.slots.len() <= SeqNum::USABLE_INTERVAL + 1
        &&& forall|k: int|
            0 <= k < self.slots.len() && self.slots[k] is Some ==> (#[trigger] self.slots[k])->0.seq
                == self.rx_seq.plus(k)
    }

    /// Only messages for the user are ready for consumption.
    pub open spec fn consumable_wf(self) -> bool {
        forall|k: int| 0 <= k < self.consumable.len() ==> is_consumable((#[trigger] self.consumable[k]).msg)
    }

    /// Where a message with the specified sequence number belongs.
    ///
    /// A sequence number that lies too far ahead violates the protocol.
    pub open spec fn place(self, seq: SeqNum) -> Result<Place, ProtocolError> {
        if seq.precedes(self.rx_seq) {
            Ok(Place::Known)
        } else if !(0 <= signed_steps(seq, self.rx_seq) <= SeqNum::USABLE_INTERVAL) {
            Err(ProtocolError::SeqUnderflow)
        } else if signed_steps(seq, self.rx_seq) < self.slots.len() && self.slots[signed_steps(
            seq,
            self.rx_seq,
        )] is Some {
            Ok(Place::Known)
        } else {
            Ok(Place::New(signed_steps(seq, self.rx_seq) as usize))
        }
    }

    /// Whether storing a message would exceed the size of the buffer.
    pub open spec fn overflows(self, msg: ReliableMsg, recv_buffer: u32) -> bool {
        msg is Data && self.size + msg.spec_size() > recv_buffer
    }

    /// The slots, extended by empty slots so that there are at least `n`.
    pub open spec fn slots_extended(self, n: int) -> Seq<Option<ReceivedReliableMsg>> {
        if self.slots.len() < n {
            self.slots + Seq::new((n - self.slots.len()) as nat, |i: int| None)
        } else {
            self.slots
        }
    }

    /// Buffer after storing a new message in the slot with the specified index.
    pub open spec fn store(self, offset: int, m: ReceivedReliableMsg) -> RxState {
        RxState {
            slots: self.slots_extended(offset + 1).update(offset, Some(m)),
            size: (self.size + m.msg.spec_size()) as u64,
            ..self
        }
    }

    /// Buffer after forwarding all messages that are next in order.
    pub open spec fn forward(self) -> RxState {
        let ready = leading(self.slots);
        RxState {
            rx_seq: self.rx_seq.plus(ready.len() as int),
            slots: self.slots.skip(ready.len() as int),
            consumable: self.consumable + consumables(ready),
            ..self
        }
    }

    /// Buffer after receiving a message that fits.
    pub open spec fn receive(self, seq: SeqNum, msg: ReliableMsg) -> RxState {
        match self.place(seq) {
            Ok(Place::New(offset)) => self.store(offset as int, ReceivedReliableMsg { seq, msg }).forward(),
            _ => self.forward(),
        }
    }

    /// Buffer after data of the specified size has been consumed.
    pub open spec fn consume_data(self, n: nat) -> RxState {
        RxState {
            size: (self.size - n) as u64,
            consumed: if self.consumed + n > u64::MAX {
                u64::MAX
            } else {
                (self.consumed + n) as u64
            },
            ..self
        }
    }

    /// Number of received messages that have not been consumed, capped at the largest representable one.
    pub open spec fn unconsumed_count(self) -> usize {
        let n = filled_count(self.slots) + self.consumable.len();
        if n > usize::MAX {
            usize::MAX
        } else {
            n as usize
        }
    }

    /// Whether sending a Consumed message is required.
    pub open spec fn consume_ack_required(self, recv_buffer: u32) -> bool {
        self.consumed > recv_buffer / 10 || self.force_ack
    }
}

/// Appending a slot adds its size.
pub proof fn lemma_slots_size_push(slots: Seq<Option<ReceivedReliableMsg>>, slot: Option<ReceivedReliableMsg>)
    ensures
        slots_size(slots.push(slot)) == slots_size(slots) + slot_size(slot),
    decreases slots.len(),
{
    if slots.len() == 0 {
        reveal_with_fuel(slots_size, 2);
        assert(slots.push(slot).drop_first() =~= Seq::empty());
    } else {
        assert(slots.push(slot).drop_first() =~= slots.drop_first().push(slot));
        lemma_slots_size_push(slots.drop_first(), slot);
    }
}

/// Replacing a slot exchanges its size.
pub proof fn lemma_slots_size_update(
    slots: Seq<Option<ReceivedReliableMsg>>,
    i: int,
    slot: Option<ReceivedReliableMsg>,
)
    requires
        0 <= i < slots.len(),
    ensures
        slots_size(slots.update(i, slot)) == slots_size(slots) - slot_size(slots[i]) + slot_size(slot),
        slots_size(slots) >= slot_size(slots[i]),
    decreases slots.len(),
{
    if i == 0 {
        assert(slots.update(i, slot).drop_first() =~= slots.drop_first());
    } else {
        assert(slots.update(i, slot).drop_first() =~= slots.drop_first().update(i - 1, slot));
        lemma_slots_size_update(slots.drop_first(), i - 1, slot);
    }
}

/// Empty slots have no size.
proof fn lemma_slots_extended_size(s: RxState, n: int)
    ensures
        slots_size(s.slots_extended(n)) == slots_size(s.slots),
    decreases n - s.slots.len(),
{
    if s.slots.len() < n {
        let longer = RxState { slots: s.slots.push(None), ..s };
        lemma_slots_size_push(s.slots, None);
        lemma_slots_extended_size(longer, n);
        assert(longer.slots_extended(n) =~= s.slots_extended(n));
    }
}

/// Concatenating messages adds their sizes.
pub proof fn lemma_msgs_size_add(a: Seq<ReceivedReliableMsg>, b: Seq<ReceivedReliableMsg>)
    ensures
        msgs_size(a + b) == msgs_size(a) + msgs_size(b),
    decreases a.len(),
{
    if a.len() == 0 {
        assert(a + b =~= b);
    } else {
        assert((a + b).drop_first() =~= a.drop_first() + b);
        lemma_msgs_size_add(a.drop_first(), b);
    }
}

/// There are at most as many leading messages as slots, they are the messages in the first slots
/// and the slot that follows them is empty.
pub proof fn lemma_leading(slots: Seq<Option<ReceivedReliableMsg>>)
    ensures
        leading(slots).len() <= slots.len(),
        forall|k: int| 0 <= k < leading(slots).len() ==> slots[k] == Some(#[trigger] leading(slots)[k]),
        leading(slots).len() < slots.len() ==> slots[leading(slots).len() as int] is None,
    decreases slots.len(),
{
    if slots.len() > 0 && slots[0] is Some {
        lemma_leading(slots.drop_first());
        assert forall|k: int| 0 <= k < leading(slots).len() implies slots[k] == Some(
            #[trigger] leading(slots)[k],
        ) by {
            if k > 0 {
                assert(slots.drop_first()[k - 1] == slots[k]);
                assert(leading(slots.drop_first())[k - 1] == leading(slots)[k]);
            }
        }
    }
}

/// Messages that are not handed out to the user carry no data.
proof fn lemma_leading_size(slots: Seq<Option<ReceivedReliableMsg>>)
    ensures
        slots_size(slots.skip(leading(slots).len() as int)) + msgs_size(consumables(leading(slots))) == slots_size(
            slots,
        ),
    decreases slots.len(),
{
    if slots.len() > 0 && slots[0] is Some {
        let rest = slots.drop_first();
        lemma_leading_size(rest);
        lemma_leading(rest);
        assert(leading(slots).drop_first() =~= leading(rest));
        assert(slots.skip(leading(slots).len() as int) =~= rest.skip(leading(rest).len() as int));
        let first: Seq<ReceivedReliableMsg> = if is_consumable(slots[0]->0.msg) {
            seq![slots[0]->0]
        } else {
            Seq::empty()
        };
        lemma_msgs_size_add(first, consumables(leading(rest)));
        if is_consumable(slots[0]->0.msg) {
            reveal_with_fuel(msgs_size, 2);
            assert(first.drop_first() =~= Seq::empty());
        }
    } else {
        assert(slots.skip(0) =~= slots);
    }
}

/// Only messages for the user are handed out.
proof fn lemma_consumables_wf(msgs: Seq<ReceivedReliableMsg>)
    ensures
        forall|k: int| 0 <= k < consumables(msgs).len() ==> is_consumable((#[trigger] consumables(msgs)[k]).msg),
    decreases msgs.len(),
{
    if msgs.len() > 0 {
        lemma_consumables_wf(msgs.drop_first());
        let rest = consumables(msgs.drop_first());
        assert forall|k: int| 0 <= k < consumables(msgs).len() implies is_consumable(
            (#[trigger] consumables(msgs)[k]).msg,
        ) by {
            if is_consumable(msgs[0].msg) {
                if k > 0 {
                    assert(consumables(msgs)[k] == rest[k - 1]);
                }
            } else {
                assert(consumables(msgs) =~= rest);
            }
        }
    }
}

/// Forwarding keeps the invariant; it establishes that the first slot is empty.
pub proof fn lemma_forward_wf(s: RxState, recv_buffer: u32)
    requires
        s.slots_wf(),
        s.consumable_wf(),
        s.size == slots_size(s.slots) + msgs_size(s.consumable),
        s.size <= recv_buffer,
    ensures
        s.forward().wf(recv_buffer),
{
    let ready = leading(s.slots);
    let f = s.forward();
    lemma_leading(s.slots);
    lemma_leading_size(s.slots);
    lemma_consumables_wf(ready);
    lemma_msgs_size_add(s.consumable, consumables(ready));
    assert forall|k: int| 0 <= k < f.slots.len() && f.slots[k] is Some implies (#[trigger] f.slots[k])->0.seq
        == f.rx_seq.plus(k) by {
        assert(f.slots[k] == s.slots[k + ready.len()]);
    }
    assert forall|k: int| 0 <= k < f.consumable.len() implies is_consumable(
        (#[trigger] f.consumable[k]).msg,
    ) by {
        if k >= s.consumable.len() {
            assert(f.consumable[k] == consumables(ready)[k - s.consumable.len()]);
        } else {
            assert(f.consumable[k] == s.consumable[k]);
        }
    }
}

/// Storing a new message in its slot keeps the slots in order and accounts for its size.
pub proof fn lemma_store_wf(s: RxState, seq: SeqNum, msg: ReliableMsg, recv_buffer: u32)
    requires
        s.wf(recv_buffer),
        s.place(seq) matches Ok(Place::New(_)),
        !s.overflows(msg, recv_buffer),
    ensures
        ({
            let offset = signed_steps(seq, s.rx_seq);
            let t = s.store(offset, ReceivedReliableMsg { seq, msg });
            &&& s.place(seq) == Ok::<Place, ProtocolError>(Place::New(offset as usize))
            &&& offset as usize == offset
            &&& t.slots_wf()
            &&& t.consumable_wf()
            &&& t.size == slots_size(t.slots) + msgs_size(t.consumable)
            &&& t.size <= recv_buffer
        }),
{
    let offset = signed_steps(seq, s.rx_seq);
    let m = ReceivedReliableMsg { seq, msg };
    let t = s.store(offset, m);
    let longer = s.slots_extended(offset + 1);
    lemma_slots_extended_size(s, offset + 1);
    lemma_slots_size_update(longer, offset, Some(m));
    assert(longer[offset] is None);
    assert forall|k: int| 0 <= k < t.slots.len() && t.slots[k] is Some implies (#[trigger] t.slots[k])->0.seq
        == t.rx_seq.plus(k) by {
        if k != offset {
            assert(t.slots[k] == longer[k]);
            assert(k < s.slots.len());
            assert(longer[k] == s.slots[k]);
        }
    }
}

/// Receiving a message that fits keeps the invariant.
pub proof fn law_receive_keeps_invariant(s: RxState, seq: SeqNum, msg: ReliableMsg, recv_buffer: u32)
    requires
        s.wf(recv_buffer),
        s.place(seq) is Ok,
        s.place(seq) matches Ok(Place::New(_)) ==> !s.overflows(msg, recv_buffer),
    ensures
        s.receive(seq, msg).wf(recv_buffer),
{
    match s.place(seq) {
        Ok(Place::New(offset)) => {
            lemma_store_wf(s, seq, msg, recv_buffer);
            lemma_forward_wf(s.store(offset as int, ReceivedReliableMsg { seq, msg }), recv_buffer);
        },
        _ => {
            lemma_forward_wf(s, recv_buffer);
        },
    }
}

/// Whether the buffer holds nothing but messages of the stream, in their places, where `n` is the position
/// in the stream up to which messages have been forwarded.
pub open spec fn follows_stream(s: RxState, stream: Seq<ReliableMsg>, n: int) -> bool {
    &&& 0 <= n
    &&& s.rx_seq == seq_of(n)
    &&& forall|k: int|
        0 <= k < s.slots.len() && s.slots[k] is Some ==> n + k < stream.len() && (#[trigger] s.slots[k])->0.msg
            == stream[n + k]
}

/// Messages of the stream from position `from` up to position `to`, with their sequence numbers.
pub open spec fn stream_part(stream: Seq<ReliableMsg>, from: int, to: int) -> Seq<ReceivedReliableMsg> {
    Seq::new((to - from) as nat, |i: int| ReceivedReliableMsg { seq: seq_of(from + i), msg: stream[from + i] })
}

/// Messages are handed out in the order in which they were sent, without loss and without repetition,
/// no matter in which order and how often they are received.
///
/// If message `i` of the stream is received, then forwarding proceeds from position `n` to some position
/// `m` and exactly the messages between both positions become ready for consumption. Message `i` must not
/// be further away from position `n` than sequence numbers can tell apart.
pub proof fn law_in_order_exactly_once(s: RxState, stream: Seq<ReliableMsg>, n: int, i: int, recv_buffer: u32)
    requires
        s.wf(recv_buffer),
        follows_stream(s, stream, n),
        0 <= i < stream.len(),
        n - SeqNum::USABLE_INTERVAL <= i <= n + SeqNum::USABLE_INTERVAL,
    ensures
        ({
            let t = s.receive(seq_of(i), stream[i]);
            let m = n + steps_between(t.rx_seq, s.rx_seq);
            &&& n <= m
            &&& (i < n ==> m == n)
            &&& (i == n ==> m > n)
            &&& follows_stream(t, stream, m)
            &&& t.consumable == s.consumable + consumables(stream_part(stream, n, m))
        }),
{
    let seq = seq_of(i);
    let msg = stream[i];
    let m = ReceivedReliableMsg { seq, msg };
    lemma_place_of_position(s, n, i);
    if i < n || (i - n < s.slots.len() && s.slots[i - n] is Some) {
        lemma_forward_follows(s, stream, n);
    } else {
        let t = s.store(i - n, m);
        lemma_store_follows(s, stream, n, i);
        lemma_forward_follows(t, stream, n);
        if i == n {
            assert(t.slots[0] is Some);
        }
    }
}

/// Where the message at a position of the stream belongs.
pub proof fn lemma_place_of_position(s: RxState, n: int, i: int)
    requires
        s.rx_seq == seq_of(n),
        n - SeqNum::USABLE_INTERVAL <= i <= n + SeqNum::USABLE_INTERVAL,
    ensures
        i < n ==> s.place(seq_of(i)) == Ok::<Place, ProtocolError>(Place::Known),
        i >= n ==> s.place(seq_of(i)) == Ok::<Place, ProtocolError>(
            if i - n < s.slots.len() && s.slots[i - n] is Some {
                Place::Known
            } else {
                Place::New((i - n) as usize)
            },
        ),
{
    if i < n {
        law_order_follows_stream(i, n);
    } else if i > n {
        law_order_follows_stream(n, i);
    }
}

/// Storing a message of the stream in its place.
proof fn lemma_store_follows(s: RxState, stream: Seq<ReliableMsg>, n: int, i: int)
    requires
        s.slots_wf(),
        follows_stream(s, stream, n),
        n <= i < stream.len(),
        i <= n + SeqNum::USABLE_INTERVAL,
    ensures
        ({
            let t = s.store(i - n, ReceivedReliableMsg { seq: seq_of(i), msg: stream[i] });
            t.slots_wf() && follows_stream(t, stream, n)
        }),
{
    let offset = i - n;
    let longer = s.slots_extended(offset + 1);
    let t = s.store(offset, ReceivedReliableMsg { seq: seq_of(i), msg: stream[i] });
    lemma_seq_of_plus(n, offset);
    assert forall|k: int| 0 <= k < t.slots.len() && t.slots[k] is Some implies (#[trigger] t.slots[k])->0.seq
        == t.rx_seq.plus(k) && n + k < stream.len() && t.slots[k]->0.msg == stream[n + k] by {
        if k != offset {
            assert(t.slots[k] == longer[k]);
            assert(k < s.slots.len());
            assert(longer[k] == s.slots[k]);
        }
    }
}

/// Forwarding hands out the messages of the stream that are next in order.
proof fn lemma_forward_follows(s: RxState, stream: Seq<ReliableMsg>, n: int)
    requires
        s.slots_wf(),
        follows_stream(s, stream, n),
    ensures
        ({
            let t = s.forward();
            let m = n + leading(s.slots).len();
            &&& steps_between(t.rx_seq, s.rx_seq) == m - n
            &&& (s.slots.len() > 0 && s.slots[0] is Some ==> m > n)
            &&& (s.slots.len() > 0 && s.slots[0] is None ==> m == n)
            &&& (s.slots.len() == 0 ==> m == n)
            &&& follows_stream(t, stream, m)
            &&& t.consumable == s.consumable + consumables(stream_part(stream, n, m))
        }),
{
    let ready = leading(s.slots);
    lemma_leading(s.slots);
    let m = n + ready.len();
    let t = s.forward();
    lemma_seq_of_plus(n, ready.len() as int);
    lemma_steps_between_positions(n, m);
    assert forall|k: int| 0 <= k < ready.len() implies #[trigger] ready[k] == stream_part(stream, n, m)[k] by {
        assert(s.slots[k] == Some(ready[k]));
        lemma_seq_of_plus(n, k);
    }
    assert(ready =~= stream_part(stream, n, m));
    assert forall|k: int| 0 <= k < t.slots.len() && t.slots[k] is Some implies m + k < stream.len() && (
    #[trigger] t.slots[k])->0.msg == stream[m + k] by {
        assert(t.slots[k] == s.slots[k + ready.len()]);
    }
}

/// Forwarding one message after the other is the same as forwarding all of them at once.
proof fn lemma_forward_one(s: RxState)
    requires
        s.slots.len() > 0,
        s.slots[0] is Some,
    ensures
        s.forward() == (RxState {
            rx_seq: s.rx_seq.plus(1),
            slots: s.slots.drop_first(),
            consumable: if is_consumable(s.slots[0]->0.msg) {
                s.consumable.push(s.slots[0]->0)
            } else {
                s.consumable
            },
            ..s
        }).forward(),
{
    let rest = s.slots.drop_first();
    let t = RxState {
        rx_seq: s.rx_seq.plus(1),
        slots: rest,
        consumable: if is_consumable(s.slots[0]->0.msg) {
            s.consumable.push(s.slots[0]->0)
        } else {
            s.consumable
        },
        ..s
    };
    lemma_leading(rest);
    assert(leading(s.slots).drop_first() =~= leading(rest));
    assert(s.slots.skip(leading(s.slots).len() as int) =~= rest.skip(leading(rest).len() as int));
    assert(s.forward().consumable =~= t.forward().consumable);
}

/// `VecDeque`'s index operator gives access to an element, which is then replaced.
#[verifier::external_body]
pub(crate) fn deque_set<T>(deque: &mut VecDeque<T>, i: usize, value: T)
    requires
        i < old(deque)@.len(),
    ensures
        final(deque)@ == old(deque)@.update(i as int, value),
{
    deque[i] = value;
}

impl ReceiveBuffer {
    /// Creates an empty buffer.
    pub fn new() -> (r: Self)
        ensures
            r@ == RxState::empty(),
    {
        ReceiveBuffer {
            rx_seq: SeqNum::zero(),
            rxed_reliable: VecDeque::new(),
            rxed_reliable_consumable: VecDeque::new(),
            rxed_reliable_size: 0,
            rxed_reliable_consumed_since_last_ack: 0,
            rxed_reliable_consumed_force_ack: false,
        }
    }

    /// Determines where a message with the specified sequence number belongs.
    pub fn find_place(&self, seq: SeqNum) -> (r: Result<Place, ProtocolError>)
        ensures
            r == self@.place(seq),
    {
        if seq < self.rx_seq {
            return Ok(Place::Known);
        }
        let steps: i32 = seq - self.rx_seq;
        if steps < 0 || steps > SeqNum::USABLE_INTERVAL {
            return Err(ProtocolError::SeqUnderflow);
        }
        let offset: usize = steps as usize;
        if offset < self.rxed_reliable.len() && self.rxed_reliable[offset].is_some() {
            Ok(Place::Known)
        } else {
            Ok(Place::New(offset))
        }
    }

    /// Whether storing a message would exceed the size of the buffer.
    pub fn would_overflow(&self, msg: &ReliableMsg, cfg: &Cfg) -> (r: bool)
        requires
            self@.wf(cfg.recv_buffer),
        ensures
            r == self@.overflows(*msg, cfg.recv_buffer),
    {
        match msg {
            ReliableMsg::Data(data) => data.len() as u64 > cfg.recv_buffer as u64 - self.rxed_reliable_size,
            _ => false,
        }
    }

    /// Stores a new message in its slot.
    pub fn store_msg(&mut self, offset: usize, m: ReceivedReliableMsg)
        requires
            offset < usize::MAX,
            old(self)@.size + m.msg.spec_size() <= u64::MAX,
        ensures
            final(self)@ == old(self)@.store(offset as int, m),
    {
        self.rxed_reliable_size = self.rxed_reliable_size + m.msg.size() as u64;
        assert(self.rxed_reliable@ =~= old(self)@.slots_extended(self.rxed_reliable@.len() as int));
        while self.rxed_reliable.len() <= offset
            invariant
                offset < usize::MAX,
                old(self)@.slots.len() <= self.rxed_reliable@.len(),
                self.rxed_reliable@.len() <= offset + 1 || self.rxed_reliable@.len() == old(self)@.slots.len(),
                self.rxed_reliable@ == old(self)@.slots_extended(self.rxed_reliable@.len() as int),
                self@ == (RxState { slots: self@.slots, size: self@.size, ..old(self)@ }),
                self@.size == old(self)@.size + m.msg.spec_size(),
            decreases offset + 1 - self.rxed_reliable@.len(),
        {
            let ghost before = self.rxed_reliable@;
            self.rxed_reliable.push_back(None);
            assert(self.rxed_reliable@ =~= old(self)@.slots_extended((before.len() + 1) as int));
        }
        assert(self.rxed_reliable@ =~= old(self)@.slots_extended(offset + 1));
        deque_set(&mut self.rxed_reliable, offset, Some(m));
    }

    /// Forwards received messages that are ready for consumption.
    pub fn forward_ready(&mut self)
        ensures
            final(self)@ == old(self)@.forward(),
    {
        while self.rxed_reliable.len() > 0 && self.rxed_reliable[0].is_some()
            invariant
                self@.forward() == old(self)@.forward(),
            decreases self.rxed_reliable@.len(),
        {
            proof {
                lemma_forward_one(self@);
            }
            let ghost before = self@;
            if let Some(Some(m)) = self.rxed_reliable.pop_front() {
                self.rx_seq = self.rx_seq + 1u32;
                if matches!(&m.msg, ReliableMsg::Data(_) | ReliableMsg::SendFinish) {
                    self.rxed_reliable_consumable.push_back(m);
                }
            }
            assert(self@.slots =~= before.slots.drop_first());
        }
        assert(leading(self@.slots) =~= Seq::empty());
        assert(self@.forward() =~= self@) by {
            assert(self@.slots.skip(0) =~= self@.slots);
            assert(self@.consumable + consumables(leading(self@.slots)) =~= self@.consumable);
        }
    }

    /// Takes the next message for consumption.
    pub fn take_consumable(&mut self) -> (r: Option<ReceivedReliableMsg>)
        ensures
            match r {
                None => old(self)@.consumable.len() == 0 && final(self)@ == old(self)@,
                Some(m) => {
                    &&& old(self)@.consumable.len() > 0
                    &&& m == old(self)@.consumable[0]
                    &&& final(self)@ == (RxState {
                        consumable: old(self)@.consumable.drop_first(),
                        ..old(self)@
                    })
                },
            },
    {
        let r: Option<ReceivedReliableMsg> = self.rxed_reliable_consumable.pop_front();
        proof {
            if r is Some {
                assert(self@.consumable =~= old(self)@.consumable.drop_first());
            }
        }
        r
    }

    /// Records that data of the specified size has been consumed.
    pub fn data_consumed(&mut self, n: usize)
        requires
            n <= old(self)@.size,
        ensures
            final(self)@ == old(self)@.consume_data(n as nat),
    {
        self.rxed_reliable_size = self.rxed_reliable_size - n as u64;
        let consumed: u64 = self.rxed_reliable_consumed_since_last_ack.saturating_add(n as u64);
        self.rxed_reliable_consumed_since_last_ack = consumed;
    }

    /// Returns whether sending a Consumed message is required.
    pub fn is_consume_ack_required(&self, cfg: &Cfg) -> (r: bool)
        ensures
            r == self@.consume_ack_required(cfg.recv_buffer),
    {
        self.rxed_reliable_consumed_since_last_ack > cfg.recv_buffer as u64 / 10
            || self.rxed_reliable_consumed_force_ack
    }

    /// Number of received messages that have not been consumed.
    pub fn unconsumed_count(&self) -> (r: usize)
        ensures
            r == self@.unconsumed_count(),
    {
        let mut n: usize = self.rxed_reliable_consumable.len();
        let mut i: usize = 0;
        assert(self@.slots.skip(0) =~= self@.slots);
        while i < self.rxed_reliable.len()
            invariant
                i <= self@.slots.len(),
                n <= self@.unconsumed_count(),
                n < usize::MAX ==> n + filled_count(self@.slots.skip(i as int)) == filled_count(self@.slots)
                    + self@.consumable.len(),
            decreases self@.slots.len() - i,
        {
            assert(self@.slots.skip(i as int).drop_first() =~= self@.slots.skip(i + 1));
            if self.rxed_reliable[i].is_some() && n < usize::MAX {
                n += 1;
            }
            i += 1;
        }
        n
    }
}

} // verus!
