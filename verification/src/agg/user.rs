//! Handling of requests of the user of a connection.

use crate::agg::limits::ids_where;
use crate::agg::limits::lemma_ids_where;
use crate::agg::link_int::LinkState;
use crate::agg::ready::lemma_send_closing_wf;
use crate::agg::rx::{msgs_size, ReceivedReliableMsg, RxState};
use crate::agg::state::{lemma_flush_link_wf, lemma_frame_wf, lemma_set_rx_wf, lemma_wf_buffers, lemma_wf_idle};
use crate::agg::state::{Task, TaskChannels, TaskErrors, TaskState, TaskTimes};
use crate::buf::content;
use crate::msg::ReliableMsg;
use crate::peekable_mpsc::PeekableReceiver;
use crate::time::Instant;
use bytes::Bytes;
use std::collections::HashSet;
use vstd::prelude::*;

verus! {

broadcast use vstd::std_specs::hash::group_hash_axioms;

/// Indices of the confirmed links.
pub open spec fn confirmed_ids(links: Seq<Option<LinkState>>) -> Seq<usize> {
    ids_where(links, |l: LinkState| l.status.unconfirmed is None)
}

impl TaskState {
    /// State after starting to flush several links one after the other.
    pub open spec fn flush_links(self, ids: Seq<usize>, now: Instant) -> TaskState
        decreases ids.len(),
    {
        if ids.len() == 0 {
            self
        } else {
            self.flush_link(ids[0], now).flush_links(ids.drop_first(), now)
        }
    }

    /// State after starting to flush all confirmed links by user request.
    ///
    /// If flush requests are ignored, no link needs to be waited for.
    #[verifier::opaque]
    pub open spec fn start_user_flush(self, now: Instant) -> TaskState {
        let ids = if self.info.cfg.ignore_flush {
            Seq::empty()
        } else {
            confirmed_ids(self.links)
        };
        let s = self.flush_links(ids, now);
        TaskState {
            unflushed: ids.to_set(),
            write_rx: Some(PeekableReceiver { peeked: None }),
            times: TaskTimes { flush_pending: true, ..s.times },
            ..s
        }
    }

    /// State after sending a message that closes a channel over the link that became idle last,
    /// if there is one.
    pub open spec fn close_over_idle(self, msg: ReliableMsg, tx_seq_avail: bool, now: Instant) -> TaskState {
        if self.idle.len() > 0 && tx_seq_avail {
            self.send_closing(self.idle.last(), msg, now)
        } else {
            self
        }
    }

    /// State after the sender has been dropped.
    #[verifier::opaque]
    pub open spec fn write_ended(self, tx_seq_avail: bool, now: Instant) -> TaskState {
        TaskState { write_rx: None, ..self }.close_over_idle(ReliableMsg::SendFinish, tx_seq_avail, now)
    }

    /// State after the receiver has been dropped.
    #[verifier::opaque]
    pub open spec fn read_dropped(self, tx_seq_avail: bool, now: Instant) -> TaskState {
        TaskState {
            chan: TaskChannels { read_open: false, read_closed_open: false, ..self.chan },
            ..self
        }.close_over_idle(ReliableMsg::ReceiveFinish, tx_seq_avail, now)
    }

    /// State after the receiver has been closed.
    #[verifier::opaque]
    pub open spec fn read_closed(self, tx_seq_avail: bool, now: Instant) -> TaskState {
        TaskState { chan: TaskChannels { read_closed_open: false, ..self.chan }, ..self }.close_over_idle(
            ReliableMsg::ReceiveClose,
            tx_seq_avail,
            now,
        )
    }

    /// State after the first consumable message has been consumed and the data for the user.
    pub open spec fn consume(self) -> (TaskState, Option<Bytes>) {
        let s = TaskState { rx: RxState { consumable: self.rx.consumable.drop_first(), ..self.rx }, ..self };
        match self.rx.consumable[0].msg {
            ReliableMsg::Data(data) => (
                TaskState { rx: s.rx.consume_data(content(data).len()), ..s },
                if self.chan.read_open {
                    Some(data)
                } else {
                    None
                },
            ),
            _ => (
                TaskState {
                    errors: TaskErrors { read_error: None, ..s.errors },
                    chan: TaskChannels { read_open: false, receive_finish_sent: true, ..s.chan },
                    rx: RxState { force_ack: true, ..s.rx },
                    ..s
                },
                None,
            ),
        }
    }
}

/// Flushing several links keeps the invariant and the links.
pub proof fn lemma_flush_links_wf(s: TaskState, ids: Seq<usize>, now: Instant)
    requires
        s.wf(),
        forall|k: int| 0 <= k < ids.len() ==> s.has(#[trigger] ids[k] as int),
    ensures
        s.flush_links(ids, now).wf(),
        forall|i: int| #![trigger s.flush_links(ids, now).has(i)] s.flush_links(ids, now).has(i) == s.has(i),
    decreases ids.len(),
{
    if ids.len() > 0 {
        let t = s.flush_link(ids[0], now);
        assert(s.has(ids[0] as int));
        lemma_flush_link_wf(s, ids[0], now);
        lemma_flush_keeps_links(s, ids[0], now);
        let rest = ids.drop_first();
        assert forall|k: int| 0 <= k < rest.len() implies t.has(#[trigger] rest[k] as int) by {
            assert(rest[k] == ids[k + 1]);
            assert(s.has(ids[k + 1] as int));
        }
        lemma_flush_links_wf(t, rest, now);
    }
}

/// Flushing a link keeps all links.
proof fn lemma_flush_keeps_links(s: TaskState, id: usize, now: Instant)
    requires
        s.has(id as int),
    ensures
        forall|i: int| #![trigger s.flush_link(id, now).has(i)] s.flush_link(id, now).has(i) == s.has(i),
{
}

/// Waiting for links to be flushed keeps the invariant, if they are present.
proof fn lemma_set_unflushed_wf(s: TaskState, unflushed: Set<usize>)
    requires
        s.wf(),
        unflushed.finite(),
        forall|id: usize| #![trigger unflushed.contains(id)] unflushed.contains(id) ==> s.has(id as int),
    ensures
        (TaskState { unflushed, ..s }).wf(),
{
    reveal(TaskState::wf);
    let t = TaskState { unflushed, ..s };
    assert forall|i: int| #![trigger t.has(i)] t.has(i) implies t.link(i).wf() && t.link(
        i,
    ).unacked.txed_unacked_data == crate::agg::tx::total(crate::agg::tx::Tally::OnLink(i), t.tx.packets) by {
        assert(s.has(i));
    }
    assert forall|k: int| 0 <= k < t.tx.packets.len() implies t.packet_link_wf(#[trigger] t.tx.packets[k]) by {
        assert(s.packet_link_wf(s.tx.packets[k]));
    }
    assert forall|i: usize| #![trigger t.idle.contains(i)] t.idle.contains(i) implies t.has(i as int)
        && crate::agg::state::may_idle(t.link(i as int)) by {
        assert(s.idle.contains(i));
    }
    assert forall|i: usize| #![trigger t.unflushed.contains(i)] t.unflushed.contains(i) implies t.has(i as int) by {
        assert(unflushed.contains(i));
        assert(s.has(i as int));
    }
}

/// No longer waiting for a link to be flushed keeps the invariant.
pub proof fn lemma_flushed_wf(s: TaskState, id: usize)
    requires
        s.wf(),
    ensures
        (TaskState { unflushed: s.unflushed.remove(id), ..s }).wf(),
{
    assert(s.unflushed_wf()) by {
        reveal(TaskState::wf);
    }
    assert forall|i: usize| #![trigger s.unflushed.remove(id).contains(i)] s.unflushed.remove(id).contains(
        i,
    ) implies s.has(i as int) by {
        assert(s.unflushed.contains(i));
    }
    lemma_set_unflushed_wf(s, s.unflushed.remove(id));
}

/// Starting to flush all confirmed links keeps the invariant.
pub proof fn lemma_start_user_flush_wf(s: TaskState, now: Instant)
    requires
        s.wf(),
        s.links.len() <= usize::MAX,
    ensures
        s.start_user_flush(now).wf(),
{
    reveal(TaskState::start_user_flush);
    let ids = if s.info.cfg.ignore_flush {
        Seq::empty()
    } else {
        confirmed_ids(s.links)
    };
    lemma_ids_where(s.links, |l: LinkState| l.status.unconfirmed is None);
    assert forall|k: int| 0 <= k < ids.len() implies s.has(#[trigger] ids[k] as int) by {
        assert(confirmed_ids(s.links)[k] == ids[k]);
    }
    lemma_flush_links_wf(s, ids, now);
    let t = s.flush_links(ids, now);
    vstd::seq_lib::seq_to_set_is_finite(ids);
    assert forall|id: usize|
        #![trigger ids.to_set().contains(id)]
        ids.to_set().contains(id) implies t.has(id as int) by {
        let k = choose|k: int| 0 <= k < ids.len() && ids[k] == id;
        assert(s.has(ids[k] as int));
    }
    lemma_set_unflushed_wf(t, ids.to_set());
    lemma_frame_wf(TaskState { unflushed: ids.to_set(), ..t }, s.start_user_flush(now));
}

/// Sending a message that closes a channel over an idle link keeps the invariant.
pub proof fn lemma_close_over_idle_wf(s: TaskState, msg: ReliableMsg, tx_seq_avail: bool, now: Instant)
    requires
        s.wf(),
        tx_seq_avail ==> s.tx.seq_avail(),
        !(msg is Data),
    ensures
        s.close_over_idle(msg, tx_seq_avail, now).wf(),
        s.idle.len() > 0 ==> s.has(s.idle.last() as int) && s.link(s.idle.last() as int).tx.tx_polling is None,
{
    if s.idle.len() > 0 {
        assert(s.idle.contains(s.idle.last()));
        lemma_wf_idle(s, s.idle.last());
        if tx_seq_avail {
            lemma_send_closing_wf(s, s.idle.last(), msg, now);
        }
    }
}

/// Consuming a message keeps the invariant.
pub proof fn lemma_consume_wf(s: TaskState)
    requires
        s.wf(),
        s.rx.consumable.len() > 0,
    ensures
        s.consume().0.wf(),
        s.rx.consumable[0].msg matches ReliableMsg::Data(data) ==> content(data).len() <= s.rx.size,
{
    lemma_wf_buffers(s);
    let rest = s.rx.consumable.drop_first();
    let rx = s.consume().0.rx;
    assert(msgs_size(s.rx.consumable) == s.rx.consumable[0].msg.spec_size() + msgs_size(rest));
    assert(rx.consumable_wf()) by {
        assert forall|k: int| 0 <= k < rest.len() implies crate::agg::rx::is_consumable(
            (#[trigger] rest[k]).msg,
        ) by {
            assert(rest[k] == s.rx.consumable[k + 1]);
        }
    }
    assert(rx.slots_wf());
    assert(crate::agg::rx::is_consumable(s.rx.consumable[0].msg));
    assert(rx.wf(s.info.cfg.recv_buffer));
    lemma_set_rx_wf(s, rx);
    lemma_frame_wf(TaskState { rx, ..s }, s.consume().0);
}

impl Task {
    /// Indices of the confirmed links.
    fn confirmed_ids(&self) -> (r: Vec<usize>)
        ensures
            r@ == confirmed_ids(self@.links),
    {
        let ghost links = self@.links;
        let ghost cond = |l: LinkState| l.status.unconfirmed is None;
        let mut ids: Vec<usize> = Vec::new();
        let mut i: usize = 0;
        assert(links.take(0) =~= Seq::empty());
        while i < self.links.len()
            invariant
                links == self@.links,
                cond == (|l: LinkState| l.status.unconfirmed is None),
                i <= links.len(),
                ids@ == ids_where(links.take(i as int), cond),
            decreases links.len() - i,
        {
            assert(links.take(i + 1).drop_last() =~= links.take(i as int));
            assert(links.take(i + 1).last() == links[i as int]);
            if let Some(link) = &self.links[i] {
                if link.status.unconfirmed.is_none() {
                    ids.push(i);
                }
            }
            i += 1;
        }
        assert(links.take(i as int) =~= links);
        ids
    }

    /// Starts flushing several links one after the other.
    fn flush_links(&mut self, ids: &Vec<usize>, now: Instant)
        requires
            old(self)@.wf(),
            forall|k: int| 0 <= k < ids@.len() ==> old(self)@.has(#[trigger] ids@[k] as int),
        ensures
            final(self)@ == old(self)@.flush_links(ids@, now),
            final(self)@.wf(),
    {
        let mut i: usize = 0;
        assert(ids@.skip(0) =~= ids@);
        while i < ids.len()
            invariant
                i <= ids@.len(),
                self@.wf(),
                forall|k: int| 0 <= k < ids@.len() ==> self@.has(#[trigger] ids@[k] as int),
                self@.flush_links(ids@.skip(i as int), now) == old(self)@.flush_links(ids@, now),
            decreases ids@.len() - i,
        {
            let ghost at = self@;
            assert(ids@.skip(i as int).drop_first() =~= ids@.skip(i + 1));
            assert(at.has(ids@[i as int] as int));
            self.flush_link(ids[i], now);
            proof {
                lemma_flush_keeps_links(at, ids@[i as int], now);
                assert forall|k: int| 0 <= k < ids@.len() implies self@.has(#[trigger] ids@[k] as int) by {
                    assert(at.has(ids@[k] as int));
                }
            }
            i += 1;
        }
    }

    /// Starts flushing of all confirmed links by user request.
    #[verifier::rlimit(40)]
    pub fn start_user_flush(&mut self, now: Instant)
        requires
            old(self)@.wf(),
        ensures
            final(self)@ == old(self)@.start_user_flush(now),
            final(self)@.wf(),
    {
        let ghost before = self@;
        let n: usize = self.links.len();
        proof {
            lemma_start_user_flush_wf(before, now);
            lemma_ids_where(before.links, |l: LinkState| l.status.unconfirmed is None);
        }
        let ids: Vec<usize> = if self.info.cfg.ignore_flush {
            Vec::new()
        } else {
            self.confirmed_ids()
        };
        assert forall|k: int| 0 <= k < ids@.len() implies before.has(#[trigger] ids@[k] as int) by {
            assert(confirmed_ids(before.links)[k] == ids@[k]);
        }
        self.flush_links(&ids, now);
        let mut unflushed: HashSet<usize> = HashSet::new();
        let mut i: usize = 0;
        assert(ids@.take(0).to_set() =~= Set::empty());
        while i < ids.len()
            invariant
                i <= ids@.len(),
                unflushed@ == ids@.take(i as int).to_set(),
            decreases ids@.len() - i,
        {
            unflushed.insert(ids[i]);
            assert(ids@.take(i + 1) =~= ids@.take(i as int).push(ids@[i as int]));
            assert(ids@.take(i + 1).to_set() =~= ids@.take(i as int).to_set().insert(ids@[i as int])) by {
                let a = ids@.take(i as int);
                let x = ids@[i as int];
                assert forall|y: usize| #![trigger a.push(x).contains(y)] a.push(x).contains(y) <==> a.contains(y) || y
                    == x by {
                    if a.contains(y) {
                        let k = choose|k: int| 0 <= k < a.len() && a[k] == y;
                        assert(a.push(x)[k] == y);
                    }
                    assert(a.push(x)[a.len() as int] == x);
                }
            }
            i += 1;
        }
        assert(ids@.take(i as int) =~= ids@);
        self.unflushed_links = unflushed;
        self.write_rx = Some(PeekableReceiver { peeked: None });
        self.times.flush_pending = true;
        assert(self@ =~= before.start_user_flush(now)) by {
            reveal(TaskState::start_user_flush);
        }
    }

    /// Sends a message that closes a channel over the link that became idle last, if there is one.
    fn close_over_idle(&mut self, msg: ReliableMsg, tx_seq_avail: bool, now: Instant)
        requires
            old(self)@.wf(),
            tx_seq_avail ==> old(self)@.tx.seq_avail(),
            !(msg is Data),
        ensures
            final(self)@ == old(self)@.close_over_idle(msg, tx_seq_avail, now),
            final(self)@.wf(),
    {
        proof {
            lemma_close_over_idle_wf(self@, msg, tx_seq_avail, now);
        }
        let n: usize = self.idle_links.len();
        if n > 0 && tx_seq_avail {
            let id: usize = self.idle_links[n - 1];
            self.send_closing(id, msg, now);
        }
    }

    /// Handles the sender having been dropped.
    pub fn handle_write_end(&mut self, tx_seq_avail: bool, now: Instant)
        requires
            old(self)@.wf(),
            tx_seq_avail ==> old(self)@.tx.seq_avail(),
        ensures
            final(self)@ == old(self)@.write_ended(tx_seq_avail, now),
            final(self)@.wf(),
    {
        let ghost before = self@;
        self.write_rx = None;
        proof {
            lemma_frame_wf(before, self@);
        }
        reveal(TaskState::write_ended);
        self.close_over_idle(ReliableMsg::SendFinish, tx_seq_avail, now);
    }

    /// Handles the receiver having been dropped.
    pub fn handle_read_dropped(&mut self, tx_seq_avail: bool, now: Instant)
        requires
            old(self)@.wf(),
            tx_seq_avail ==> old(self)@.tx.seq_avail(),
        ensures
            final(self)@ == old(self)@.read_dropped(tx_seq_avail, now),
            final(self)@.wf(),
    {
        let ghost before = self@;
        self.chan.read_open = false;
        self.chan.read_closed_open = false;
        proof {
            lemma_frame_wf(before, self@);
        }
        reveal(TaskState::read_dropped);
        self.close_over_idle(ReliableMsg::ReceiveFinish, tx_seq_avail, now);
    }

    /// Handles the receiver having been closed.
    pub fn handle_read_closed(&mut self, tx_seq_avail: bool, now: Instant)
        requires
            old(self)@.wf(),
            tx_seq_avail ==> old(self)@.tx.seq_avail(),
        ensures
            final(self)@ == old(self)@.read_closed(tx_seq_avail, now),
            final(self)@.wf(),
    {
        let ghost before = self@;
        self.chan.read_closed_open = false;
        proof {
            lemma_frame_wf(before, self@);
        }
        reveal(TaskState::read_closed);
        self.close_over_idle(ReliableMsg::ReceiveClose, tx_seq_avail, now);
    }

    /// Consumes the first consumable message.
    ///
    /// The returned data, if any, must be handed to the user.
    pub fn consume_received(&mut self) -> (r: Option<Bytes>)
        requires
            old(self)@.wf(),
            old(self)@.rx.consumable.len() > 0,
        ensures
            (final(self)@, r) == old(self)@.consume(),
            final(self)@.wf(),
    {
        let ghost before = self@;
        proof {
            lemma_consume_wf(before);
        }
        let received: Option<ReceivedReliableMsg> = self.rx.take_consumable();
        match received {
            Some(ReceivedReliableMsg { msg: ReliableMsg::Data(data), .. }) => {
                self.rx.data_consumed(data.len());
                assert(self@ =~= before.consume().0);
                if self.chan.read_open {
                    Some(data)
                } else {
                    None
                }
            },
            _ => {
                self.errors.read_error = None;
                self.chan.read_open = false;
                self.chan.receive_finish_sent = true;
                self.rx.rxed_reliable_consumed_force_ack = true;
                assert(self@ =~= before.consume().0);
                None
            },
        }
    }
}

} // verus!
