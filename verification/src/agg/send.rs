//! Sending over links, and adding and removing links.

use crate::agg::link_int::{data_len, LinkInt, LinkState, LinkStatus, LinkTest, LinkUnacked};
use crate::agg::state::{link_entries, link_entry, may_idle, RemovedLink, Task, TaskState};
use crate::agg::state::{
    lemma_flush_link_wf, lemma_link_entries_update, lemma_not_idle_wf, lemma_set_link_wf, lemma_tx_flush_wf,
    lemma_wf_buffers, lemma_wf_link,
};
use crate::agg::tx::{first_queued, flushed_packet, in_tally, is_on_link, packet_size, requeued_packet, total, SentReliable, SentReliableStatus, Tally};
use crate::agg::tx::{lemma_requeue_wf, lemma_resend_wf, lemma_send_wf, lemma_total_bound, lemma_total_none};
use crate::control::{DisconnectReason, NotWorkingReason};
use crate::id::LinkId;
use crate::msg::{LinkMsg, ReliableMsg};
use crate::msg::lemma_msg_len;
use crate::seq::SeqNum;
use crate::time::Instant;
use bytes::Bytes;
use vstd::prelude::*;

verus! {

/// A message that is exchanged after a link has been established has a few bytes only.
pub proof fn lemma_small_msg(msg: LinkMsg)
    requires
        !(msg is Welcome),
        !(msg is Connect),
        !(msg is TestData),
    ensures
        msg.wire_len() <= 9,
{
    reveal(LinkMsg::wire_len);
    lemma_msg_len(msg@);
}

/// Link whose failed test may be repeated.
pub open spec fn retestable(link: Option<LinkState>) -> Option<LinkState> {
    match link {
        Some(l) if l.status.test is Failed => Some(
            LinkState { status: LinkStatus { test: LinkTest::Inactive, ..l.status }, ..l },
        ),
        _ => link,
    }
}

/// The list of links without empty entries at its end.
pub open spec fn trimmed(links: Seq<Option<LinkState>>) -> Seq<Option<LinkState>>
    decreases links.len(),
{
    if links.len() > 0 && links.last() is None {
        trimmed(links.drop_last())
    } else {
        links
    }
}

/// Index of the first empty entry in the list of links; its length, if there is none.
pub open spec fn first_empty(links: Seq<Option<LinkState>>) -> int
    decreases links.len(),
{
    if links.len() == 0 || links[0] is None {
        0
    } else {
        1 + first_empty(links.drop_first())
    }
}

impl TaskState {
    /// State after sending a message over a link, optionally followed by data.
    #[verifier::opaque]
    pub open spec fn send_msg(self, id: usize, msg: LinkMsg, data: Option<Bytes>, now: Instant) -> TaskState {
        let link = self.link(id as int);
        let s = self.not_idle(id).set_link(id as int, link.sent(msg, data, now));
        TaskState {
            tx: if link.send_flushes(msg, data) {
                self.tx.flush(link.info.link_id, now)
            } else {
                self.tx
            },
            ..s
        }
    }

    /// State after sending a sequenced reliable message over a link.
    pub open spec fn send_reliable(self, id: usize, msg: ReliableMsg, now: Instant) -> TaskState {
        let s = self.send_msg(id, msg.link_msg(self.tx.tx_seq), msg.link_data(), now);
        let link = s.link(id as int);
        let t = s.set_link(
            id as int,
            LinkState {
                unacked: LinkUnacked {
                    txed_unacked_data: (link.unacked.txed_unacked_data + msg.spec_size()) as u64,
                    ..link.unacked
                },
                ..link
            },
        );
        TaskState { tx: s.tx.send(id, link.info.link_id, msg, now), ..t }
    }

    /// State after resending the first packet in the resend queue over a link.
    pub open spec fn resend_reliable(self, id: usize, now: Instant) -> TaskState {
        let p = self.tx.packets[first_queued(self.tx.packets)];
        match p.status {
            SentReliableStatus::ResendQueued { msg, .. } => {
                let s = self.send_msg(id, msg.link_msg(p.seq), msg.link_data(), now);
                let link = s.link(id as int);
                let t = s.set_link(id as int, resent_over(link, p.seq, msg.spec_size()));
                TaskState { tx: s.tx.resend(id, link.info.link_id, now), ..t }
            },
            _ => self,
        }
    }

    /// State after unconfirming a link.
    ///
    /// All packets sent over it whose reception is not yet confirmed are queued for resending.
    pub open spec fn unconfirm(self, id: usize, reason: NotWorkingReason, now: Instant) -> TaskState {
        let s = self.flush_link(id, now);
        let t = s.set_link(id as int, unconfirmed_link(s.link(id as int), reason, now));
        TaskState {
            unflushed: s.unflushed.remove(id),
            tx: s.tx.requeue(id as int),
            links: t.links.map_values(|l: Option<LinkState>| retestable(l)),
            ..t
        }
    }

    /// State after removing a link.
    pub open spec fn remove(self, id: usize, reason: DisconnectReason, now: Instant) -> TaskState {
        let s = self.unconfirm(id, NotWorkingReason::Disconnecting, now);
        TaskState {
            links: trimmed(s.links.update(id as int, None)),
            removed: s.removed.push(RemovedLink { id, link_id: s.link(id as int).info.link_id, reason }),
            ..s
        }
    }

    /// State after adding a newly established link.
    ///
    /// The link must be tested before it is used, unless no test data may be sent.
    pub open spec fn add(self, link: LinkState, now: Instant) -> TaskState {
        let id = first_empty(self.links);
        TaskState {
            links: if id < self.links.len() {
                self.links.update(id, Some(ready_link(link, now)))
            } else {
                self.links.push(Some(ready_link(link, now)))
            },
            ..self
        }
    }
}

/// Newly established link that is ready to be used.
pub open spec fn ready_link(link: LinkState, now: Instant) -> LinkState {
    LinkState {
        status: LinkStatus {
            unconfirmed: if link.eff_cfg().test_data_limit == 0 {
                None
            } else {
                Some((now, NotWorkingReason::New))
            },
            ..link.status
        },
        ..link.reporting_ready(now)
    }
}

/// Link after resending a packet over it.
pub open spec fn resent_over(link: LinkState, seq: SeqNum, size: nat) -> LinkState {
    LinkState {
        unacked: LinkUnacked {
            txed_unacked_data: (link.unacked.txed_unacked_data + size) as u64,
            txed_unacked_data_limit_increased: match link.unacked.txed_unacked_data_limit_increased {
                Some(last_increased) if seq.precedes(last_increased) => Some(seq),
                _ => link.unacked.txed_unacked_data_limit_increased,
            },
            ..link.unacked
        },
        ..link
    }
}

/// Link after it has been unconfirmed.
pub open spec fn unconfirmed_link(link: LinkState, reason: NotWorkingReason, now: Instant) -> LinkState {
    let l = link.reset_limits();
    LinkState {
        status: LinkStatus { unconfirmed: Some((now, reason)), ..l.status },
        unacked: LinkUnacked { txed_unacked_data: 0, ..l.unacked },
        ..l
    }
}

/// Sending a message keeps the invariant.
pub proof fn lemma_send_msg_wf(s: TaskState, id: usize, msg: LinkMsg, data: Option<Bytes>, now: Instant)
    requires
        s.wf(),
        s.has(id as int),
        !(msg is Welcome),
        !(msg is Connect),
    ensures
        s.send_msg(id, msg, data, now).wf(),
        s.send_msg(id, msg, data, now).has(id as int),
        !s.send_msg(id, msg, data, now).idle.contains(id),
        s.send_msg(id, msg, data, now).link(id as int) == s.link(id as int).sent(msg, data, now),
        s.send_msg(id, msg, data, now).info == s.info,
        s.send_msg(id, msg, data, now).links.len() == s.links.len(),
        s.send_msg(id, msg, data, now).tx == s.tx || s.send_msg(id, msg, data, now).tx == s.tx.flush(
            s.link(id as int).info.link_id,
            now,
        ),
{
    reveal(TaskState::send_msg);
    let link = s.link(id as int);
    lemma_wf_link(s, id as int);
    lemma_not_idle_wf(s, id);
    let s1 = s.not_idle(id);
    assert(s1.has(id as int));
    lemma_set_link_wf(s1, id as int, link.sent(msg, data, now));
    let s2 = s1.set_link(id as int, link.sent(msg, data, now));
    lemma_tx_flush_wf(s2, link.info.link_id, now);
    if link.send_flushes(msg, data) {
        assert(s.send_msg(id, msg, data, now) == (TaskState { tx: s2.tx.flush(link.info.link_id, now), ..s2 }));
    } else {
        assert(s.send_msg(id, msg, data, now) == s2);
    }
}

/// Sending a reliable message keeps the invariant, if a sequence number and enough space are available.
pub proof fn lemma_send_reliable_wf(s: TaskState, id: usize, msg: ReliableMsg, now: Instant)
    requires
        s.wf(),
        s.has(id as int),
        s.tx.seq_avail(),
        msg.spec_size() <= s.tx_space(),
    ensures
        s.send_reliable(id, msg, now).wf(),
        s.link(id as int).unacked.txed_unacked_data + msg.spec_size() <= u64::MAX,
        s.tx.unacked + msg.spec_size() <= u64::MAX,
        s.tx.unconsumed + msg.spec_size() <= u64::MAX,
{
    reveal(TaskState::wf);
    let m = s.send_msg(id, msg.link_msg(s.tx.tx_seq), msg.link_data(), now);
    lemma_send_msg_wf(s, id, msg.link_msg(s.tx.tx_seq), msg.link_data(), now);
    let link = m.link(id as int);
    lemma_send_wf(
        m.tx,
        id,
        link.info.link_id,
        msg,
        now,
        s.info.cfg.send_buffer,
        s.remote_recv_buffer(),
    );
    let t = s.send_reliable(id, msg, now);
    lemma_total_bound(Tally::OnLink(id as int), t.tx.packets);
    assert(m.has(id as int));
    assert forall|i: int| #![trigger t.has(i)] t.has(i) implies t.link(i).wf() && t.link(
        i,
    ).unacked.txed_unacked_data == total(Tally::OnLink(i), t.tx.packets) by {
        assert(m.has(i));
    }
    assert forall|k: int| 0 <= k < t.tx.packets.len() implies t.packet_link_wf(#[trigger] t.tx.packets[k]) by {
        if k < m.tx.packets.len() {
            assert(m.packet_link_wf(m.tx.packets[k]));
        }
    }
    assert forall|i: usize| #![trigger t.idle.contains(i)] t.idle.contains(i) implies t.has(i as int) && may_idle(
        t.link(i as int),
    ) by {
        assert(m.idle.contains(i));
    }
    assert forall|i: usize| #![trigger t.unflushed.contains(i)] t.unflushed.contains(i) implies t.has(i as int) by {
        assert(m.unflushed.contains(i));
    }
}

/// Flushing does not change which packet is resent first.
pub proof fn lemma_first_queued_flush(packets: Seq<SentReliable>, on: LinkId, now: Instant)
    ensures
        first_queued(packets.map_values(|p: SentReliable| flushed_packet(p, on, now))) == first_queued(packets),
    decreases packets.len(),
{
    if packets.len() > 0 && !(packets[0].status is ResendQueued) {
        let flushed = packets.map_values(|p: SentReliable| flushed_packet(p, on, now));
        lemma_first_queued_flush(packets.drop_first(), on, now);
        assert(flushed.drop_first() =~= packets.drop_first().map_values(
            |p: SentReliable| flushed_packet(p, on, now),
        ));
    }
}

/// Resending a packet keeps the invariant.
pub proof fn lemma_resend_reliable_wf(s: TaskState, id: usize, now: Instant)
    requires
        s.wf(),
        s.has(id as int),
        s.tx.resend_queue.len() > 0,
    ensures
        s.resend_reliable(id, now).wf(),
        ({
            let p = s.tx.packets[first_queued(s.tx.packets)];
            &&& p.status is ResendQueued
            &&& s.link(id as int).unacked.txed_unacked_data + packet_size(p) <= u64::MAX
        }),
{
    reveal(TaskState::wf);
    lemma_resend_wf(s.tx, id, s.link(id as int).info.link_id, now, s.info.cfg.send_buffer);
    let k = first_queued(s.tx.packets);
    let p = s.tx.packets[k];
    let msg = match p.status {
        SentReliableStatus::ResendQueued { msg, .. } => msg,
        _ => ReliableMsg::SendFinish,
    };
    let m = s.send_msg(id, msg.link_msg(p.seq), msg.link_data(), now);
    lemma_send_msg_wf(s, id, msg.link_msg(p.seq), msg.link_data(), now);
    let link = m.link(id as int);
    assert(link.info.link_id == s.link(id as int).info.link_id);
    lemma_first_queued_flush(s.tx.packets, link.info.link_id, now);
    assert(first_queued(m.tx.packets) == k);
    assert(m.tx.packets[k] == p);
    assert(m.tx.resend_queue == s.tx.resend_queue);
    lemma_resend_wf(m.tx, id, link.info.link_id, now, s.info.cfg.send_buffer);
    let t = s.resend_reliable(id, now);
    lemma_total_bound(Tally::OnLink(id as int), t.tx.packets);
    assert(m.has(id as int));
    assert forall|i: int| #![trigger t.has(i)] t.has(i) implies t.link(i).wf() && t.link(
        i,
    ).unacked.txed_unacked_data == total(Tally::OnLink(i), t.tx.packets) by {
        assert(m.has(i));
    }
    assert forall|j: int| 0 <= j < t.tx.packets.len() implies t.packet_link_wf(#[trigger] t.tx.packets[j]) by {
        if j != k {
            assert(m.packet_link_wf(m.tx.packets[j]));
        }
    }
    assert forall|i: usize| #![trigger t.idle.contains(i)] t.idle.contains(i) implies t.has(i as int) && may_idle(
        t.link(i as int),
    ) by {
        assert(m.idle.contains(i));
    }
    assert forall|i: usize| #![trigger t.unflushed.contains(i)] t.unflushed.contains(i) implies t.has(i as int) by {
        assert(m.unflushed.contains(i));
    }
}

/// Unconfirming a link keeps the invariant: nothing sent over it remains unconfirmed,
/// it is not idle and its flushing is not waited for.
pub proof fn lemma_unconfirm_wf(s: TaskState, id: usize, reason: NotWorkingReason, now: Instant)
    requires
        s.wf(),
        s.has(id as int),
    ensures
        s.unconfirm(id, reason, now).wf(),
        s.unconfirm(id, reason, now).has(id as int),
        s.unconfirm(id, reason, now).links.len() == s.links.len(),
        forall|i: int| #![trigger s.unconfirm(id, reason, now).has(i)] s.unconfirm(id, reason, now).has(i) == s.has(i),
        !s.unconfirm(id, reason, now).idle.contains(id),
        !s.unconfirm(id, reason, now).unflushed.contains(id),
        forall|k: int|
            0 <= k < s.unconfirm(id, reason, now).tx.packets.len() ==> !is_on_link(
                #[trigger] s.unconfirm(id, reason, now).tx.packets[k],
                id as int,
            ),
{
    reveal(TaskState::wf);
    let f = s.flush_link(id, now);
    lemma_flush_link_wf(s, id, now);
    lemma_not_idle_wf(s, id);
    lemma_requeue_wf(f.tx, id as int, s.info.cfg.send_buffer);
    let t = s.unconfirm(id, reason, now);
    assert(f.has(id as int));
    assert forall|i: int| #![trigger t.has(i)] t.has(i) implies t.link(i).wf() && t.link(
        i,
    ).unacked.txed_unacked_data == total(Tally::OnLink(i), t.tx.packets) by {
        assert(f.has(i));
    }
    assert forall|k: int| 0 <= k < t.tx.packets.len() implies t.packet_link_wf(#[trigger] t.tx.packets[k]) && !is_on_link(
        t.tx.packets[k],
        id as int,
    ) by {
        assert(f.packet_link_wf(f.tx.packets[k]));
        assert(t.tx.packets[k] == requeued_packet(f.tx.packets[k], id as int));
    }
    assert forall|i: usize| #![trigger t.idle.contains(i)] t.idle.contains(i) implies t.has(i as int) && may_idle(
        t.link(i as int),
    ) by {
        assert(f.idle.contains(i));
    }
    assert forall|i: usize| #![trigger t.unflushed.contains(i)] t.unflushed.contains(i) implies t.has(i as int) by {
        assert(f.unflushed.contains(i));
    }
    assert forall|i: int| #![trigger t.has(i)] t.has(i) == s.has(i) by {
        assert(f.has(i) == s.has(i));
    }
    if t.links.len() > 0 {
        assert(s.has(s.links.len() - 1));
        assert(t.has(t.links.len() - 1));
    }
}

/// The list of links without empty entries at its end has the same links.
pub proof fn lemma_trimmed(links: Seq<Option<LinkState>>)
    ensures
        trimmed(links).len() <= links.len(),
        forall|i: int| 0 <= i < trimmed(links).len() ==> #[trigger] trimmed(links)[i] == links[i],
        forall|i: int| trimmed(links).len() <= i < links.len() ==> #[trigger] links[i] is None,
        trimmed(links).len() > 0 ==> trimmed(links).last() is Some,
    decreases links.len(),
{
    if links.len() > 0 && links.last() is None {
        lemma_trimmed(links.drop_last());
        assert forall|i: int| trimmed(links).len() <= i < links.len() implies #[trigger] links[i] is None by {
            if i < links.len() - 1 {
                assert(links.drop_last()[i] == links[i]);
            }
        }
    }
}

/// Removing a link keeps the invariant; all other links stay.
pub proof fn lemma_remove_wf(s: TaskState, id: usize, reason: DisconnectReason, now: Instant)
    requires
        s.wf(),
        s.has(id as int),
    ensures
        s.remove(id, reason, now).wf(),
        forall|i: int|
            #![trigger s.remove(id, reason, now).has(i)]
            s.remove(id, reason, now).has(i) == (s.has(i) && i != id),
{
    reveal(TaskState::wf);
    let u = s.unconfirm(id, NotWorkingReason::Disconnecting, now);
    lemma_unconfirm_wf(s, id, NotWorkingReason::Disconnecting, now);
    let removed = u.links.update(id as int, None);
    lemma_trimmed(removed);
    let t = s.remove(id, reason, now);
    assert forall|i: int| #![trigger t.has(i)] t.has(i) == (u.has(i) && i != id) by {
        if t.has(i) {
            assert(trimmed(removed)[i] == removed[i]);
        }
        if u.has(i) && i != id {
            assert(removed[i] is Some);
            assert(i < trimmed(removed).len());
            assert(trimmed(removed)[i] == removed[i]);
        }
    }
    assert forall|i: int| #![trigger t.has(i)] t.has(i) implies t.link(i) == u.link(i) by {
        assert(trimmed(removed)[i] == removed[i]);
    }
    assert forall|i: int| #![trigger t.has(i)] t.has(i) implies t.link(i).wf() && t.link(
        i,
    ).unacked.txed_unacked_data == total(Tally::OnLink(i), t.tx.packets) by {
        assert(u.has(i));
    }
    assert forall|k: int| 0 <= k < t.tx.packets.len() implies t.packet_link_wf(#[trigger] t.tx.packets[k]) by {
        assert(u.packet_link_wf(u.tx.packets[k]));
        assert(!is_on_link(u.tx.packets[k], id as int));
        match t.tx.packets[k].status {
            SentReliableStatus::Sent { link_id, .. } => {
                assert(t.has(link_id as int));
            },
            _ => {},
        }
    }
    assert forall|i: usize| #![trigger t.idle.contains(i)] t.idle.contains(i) implies t.has(i as int) && may_idle(
        t.link(i as int),
    ) by {
        assert(u.idle.contains(i));
        assert(t.has(i as int));
    }
    assert forall|i: usize| #![trigger t.unflushed.contains(i)] t.unflushed.contains(i) implies t.has(i as int) by {
        assert(u.unflushed.contains(i));
        assert(t.has(i as int));
    }
}

/// The first empty entry is empty and comes after links only.
pub proof fn lemma_first_empty(links: Seq<Option<LinkState>>)
    ensures
        0 <= first_empty(links) <= links.len(),
        first_empty(links) < links.len() ==> links[first_empty(links)] is None,
        forall|i: int| 0 <= i < first_empty(links) ==> #[trigger] links[i] is Some,
    decreases links.len(),
{
    if links.len() > 0 && links[0] is Some {
        let rest = links.drop_first();
        lemma_first_empty(rest);
        assert forall|i: int| 0 <= i < first_empty(links) implies #[trigger] links[i] is Some by {
            if i > 0 {
                assert(rest[i - 1] == links[i]);
            }
        }
    }
}

/// Adding a link keeps the invariant.
pub proof fn lemma_add_wf(s: TaskState, link: LinkState, now: Instant)
    requires
        s.wf(),
        s.info.remote_cfg is Some,
        link.wf(),
        link.status.test == LinkTest::Inactive,
        link.unacked.txed_unacked_data == 0,
    ensures
        s.add(link, now).wf(),
        s.add(link, now).has(first_empty(s.links)),
        !s.has(first_empty(s.links)),
        forall|i: int|
            #![trigger s.add(link, now).has(i)]
            s.add(link, now).has(i) == (s.has(i) || i == first_empty(s.links)),
{
    reveal(TaskState::wf);
    let n = first_empty(s.links);
    let t = s.add(link, now);
    lemma_first_empty(s.links);
    assert forall|k: int| 0 <= k < s.tx.packets.len() implies !in_tally(
        Tally::OnLink(n),
        #[trigger] s.tx.packets[k],
    ) by {
        assert(s.packet_link_wf(s.tx.packets[k]));
    }
    lemma_total_none(Tally::OnLink(n), s.tx.packets);
    assert forall|i: int| #![trigger t.has(i)] t.has(i) == (s.has(i) || i == n) && (t.has(i) ==> t.link(i).wf()
        && t.link(i).unacked.txed_unacked_data == total(Tally::OnLink(i), t.tx.packets)) by {
        if s.has(i) {
            assert(t.links[i] == s.links[i]);
        }
    }
    assert forall|k: int| 0 <= k < t.tx.packets.len() implies t.packet_link_wf(#[trigger] t.tx.packets[k]) by {
        assert(s.packet_link_wf(s.tx.packets[k]));
        match t.tx.packets[k].status {
            SentReliableStatus::Sent { link_id, .. } => {
                assert(s.has(link_id as int));
                assert(t.links[link_id as int] == s.links[link_id as int]);
            },
            _ => {},
        }
    }
    assert forall|i: usize| #![trigger t.idle.contains(i)] t.idle.contains(i) implies t.has(i as int) && may_idle(
        t.link(i as int),
    ) by {
        assert(s.idle.contains(i));
        assert(t.links[i as int] == s.links[i as int]);
    }
    assert forall|i: usize| #![trigger t.unflushed.contains(i)] t.unflushed.contains(i) implies t.has(i as int) by {
        assert(s.unflushed.contains(i));
        assert(t.links[i as int] == s.links[i as int]);
    }
}

/// Replacing the link at an index by another one.
pub proof fn lemma_link_replaced(before: Seq<Option<LinkInt>>, after: Seq<Option<LinkInt>>, id: int, link: LinkInt)
    requires
        0 <= id < before.len(),
        after == before.update(id, Some(link)),
    ensures
        link_entries(after) == link_entries(before).update(id, Some(link@)),
{
    lemma_link_entries_update(before, id, Some(link));
}

impl Task {
    /// Sends a message over the specified link, optionally followed by data.
    ///
    /// The link must be ready for sending.
    pub fn start_send(&mut self, id: usize, msg: LinkMsg, data: Option<Bytes>, now: Instant)
        requires
            old(self)@.wf(),
            old(self)@.has(id as int),
            old(self)@.link(id as int).tx.tx_polling is None,
            !(msg is Welcome),
            !(msg is Connect),
            !(msg is TestData),
            data_len(data) <= u32::MAX,
        ensures
            final(self)@ == old(self)@.send_msg(id, msg, data, now),
            final(self)@.wf(),
    {
        proof {
            lemma_small_msg(msg);
            lemma_wf_link(self@, id as int);
            lemma_send_msg_wf(self@, id, msg, data, now);
        }
        let ghost before = self@;
        let ghost entries = self.links@;
        if let Some(link) = &mut self.links[id] {
            let flush: bool = link.start_send_msg(msg, data, now);
            let link_id: LinkId = link.info.link_id;
            if flush {
                self.tx.mark_txed_packets_flushed(link_id, now);
            }
        }
        proof {
            lemma_link_replaced(entries, self.links@, id as int, self.links@[id as int]->0);
        }
        self.remove_idle(id);
        proof {
            reveal(TaskState::send_msg);
        }
        assert(self@ =~= before.send_msg(id, msg, data, now));
    }

    /// Adds to the amount of data sent over a link for which no acknowledgement has been received yet.
    fn add_unacked_data(&mut self, id: usize, size: usize)
        requires
            old(self)@.has(id as int),
            old(self)@.link(id as int).unacked.txed_unacked_data + size <= u64::MAX,
        ensures
            ({
                let link = old(self)@.link(id as int);
                final(self)@ == old(self)@.set_link(
                    id as int,
                    LinkState {
                        unacked: LinkUnacked {
                            txed_unacked_data: (link.unacked.txed_unacked_data + size) as u64,
                            ..link.unacked
                        },
                        ..link
                    },
                )
            }),
    {
        let ghost entries = self.links@;
        if let Some(link) = &mut self.links[id] {
            link.unacked.txed_unacked_data = link.unacked.txed_unacked_data + size as u64;
        }
        proof {
            lemma_link_replaced(entries, self.links@, id as int, self.links@[id as int]->0);
        }
    }

    /// Records that a packet with data of the specified size was resent over a link.
    fn record_resent(&mut self, id: usize, seq: SeqNum, size: usize)
        requires
            old(self)@.has(id as int),
            old(self)@.link(id as int).unacked.txed_unacked_data + size <= u64::MAX,
        ensures
            final(self)@ == old(self)@.set_link(
                id as int,
                resent_over(old(self)@.link(id as int), seq, size as nat),
            ),
    {
        let ghost entries = self.links@;
        if let Some(link) = &mut self.links[id] {
            link.unacked.txed_unacked_data = link.unacked.txed_unacked_data + size as u64;
            if let Some(last_increased) = link.unacked.txed_unacked_data_limit_increased {
                if seq < last_increased {
                    link.unacked.txed_unacked_data_limit_increased = Some(seq);
                }
            }
        }
        proof {
            lemma_link_replaced(entries, self.links@, id as int, self.links@[id as int]->0);
        }
    }

    /// Id of the specified link.
    pub fn link_id_of(&self, id: usize) -> (r: LinkId)
        requires
            self@.has(id as int),
        ensures
            r == self@.link(id as int).info.link_id,
    {
        match &self.links[id] {
            Some(link) => link.info.link_id,
            None => LinkId(0),
        }
    }

    /// Sends a sequenced reliable message over the specified link.
    ///
    /// The link must be ready for sending, and a sequence number and
    /// sufficient buffer space must be available.
    #[verifier::rlimit(40)]
    pub fn send_reliable_over_link(&mut self, id: usize, reliable_msg: ReliableMsg, now: Instant) -> (r: SeqNum)
        requires
            old(self)@.wf(),
            old(self)@.has(id as int),
            old(self)@.link(id as int).tx.tx_polling is None,
            old(self)@.tx.seq_avail(),
            reliable_msg.spec_size() <= old(self)@.tx_space(),
        ensures
            final(self)@ == old(self)@.send_reliable(id, reliable_msg, now),
            final(self)@.wf(),
            r == old(self)@.tx.tx_seq,
    {
        proof {
            lemma_wf_buffers(self@);
            lemma_send_reliable_wf(self@, id, reliable_msg, now);
        }
        let ghost before = self@;

        // Send message.
        let (msg, data) = reliable_msg.to_link_msg(self.tx.tx_seq);
        self.start_send(id, msg, data, now);
        proof {
            lemma_send_msg_wf(before, id, reliable_msg.link_msg(before.tx.tx_seq), reliable_msg.link_data(), now);
        }

        // Update statistics.
        let size: usize = reliable_msg.size();
        self.add_unacked_data(id, size);

        // Store sent message until confirmation to be able to resend it should the link fail.
        let link_id: LinkId = self.link_id_of(id);
        let seq: SeqNum = self.tx.push_sent(id, link_id, reliable_msg, now);
        assert(self@ =~= before.send_reliable(id, reliable_msg, now));
        seq
    }

    /// Resends the first packet in the resend queue over the specified link.
    ///
    /// The link must be ready for sending and it must not be the link over which
    /// the packet was sent before.
    #[verifier::rlimit(40)]
    pub fn resend_reliable_over_link(&mut self, id: usize, now: Instant)
        requires
            old(self)@.wf(),
            old(self)@.has(id as int),
            old(self)@.link(id as int).tx.tx_polling is None,
            old(self)@.tx.resend_queue.len() > 0,
            old(self)@.tx.non_resendable() != Some(old(self)@.link(id as int).info.link_id),
        ensures
            final(self)@ == old(self)@.resend_reliable(id, now),
            final(self)@.wf(),
    {
        proof {
            lemma_wf_buffers(self@);
            lemma_resend_reliable_wf(self@, id, now);
        }
        let ghost before = self@;
        let ghost k = first_queued(before.tx.packets);
        if let Some((seq, reliable_msg, _)) = self.tx.next_resend() {
            // Send data.
            let (msg, data) = reliable_msg.to_link_msg(seq);
            assert(packet_size(before.tx.packets[k]) <= u32::MAX) by {
                lemma_resend_wf(before.tx, id, LinkId(0), now, before.info.cfg.send_buffer);
            }
            self.start_send(id, msg, data, now);
            let ghost sent = self@;
            proof {
                lemma_send_msg_wf(before, id, reliable_msg.link_msg(seq), reliable_msg.link_data(), now);
                lemma_first_queued_flush(before.tx.packets, before.link(id as int).info.link_id, now);
                assert(first_queued(sent.tx.packets) == k);
                lemma_wf_buffers(sent);
            }

            // Update link statistics and last buffer increase sequence number.
            let size: usize = reliable_msg.size();
            self.record_resent(id, seq, size);

            // Update packet.
            let link_id: LinkId = self.link_id_of(id);
            self.tx.resend_front(id, link_id, now);
            assert(self@ =~= before.resend_reliable(id, now));
        }
    }

    /// Allows links that have failed testing to be tested again.
    fn allow_retests(&mut self)
        ensures
            final(self)@ == (TaskState {
                links: old(self)@.links.map_values(|l: Option<LinkState>| retestable(l)),
                ..old(self)@
            }),
    {
        let ghost before = self@;
        let mut i: usize = 0;
        while i < self.links.len()
            invariant
                before == old(self)@,
                i <= before.links.len(),
                self@ == (TaskState { links: self@.links, ..before }),
                self@.links.len() == before.links.len(),
                forall|k: int| 0 <= k < i ==> self@.links[k] == retestable(before.links[k]),
                forall|k: int| i <= k < before.links.len() ==> self@.links[k] == before.links[k],
            decreases before.links.len() - i,
        {
            let ghost entries = self.links@;
            let ghost at = self@;
            if let Some(link) = &mut self.links[i] {
                if let LinkTest::Failed(_) = link.status.test {
                    link.status.test = LinkTest::Inactive;
                }
            }
            proof {
                lemma_link_entries_update(entries, i as int, self.links@[i as int]);
                assert(self.links@ =~= entries.update(i as int, self.links@[i as int]));
                assert(link_entry(self.links@[i as int]) == retestable(at.links[i as int]));
            }
            i += 1;
        }
        assert(self@.links =~= before.links.map_values(|l: Option<LinkState>| retestable(l)));
    }

    /// Unconfirms a link.
    #[verifier::rlimit(40)]
    pub fn unconfirm_link(&mut self, id: usize, reason: NotWorkingReason, now: Instant)
        requires
            old(self)@.wf(),
            old(self)@.has(id as int),
        ensures
            final(self)@ == old(self)@.unconfirm(id, reason, now),
            final(self)@.wf(),
    {
        broadcast use vstd::std_specs::hash::group_hash_axioms;

        proof {
            lemma_unconfirm_wf(self@, id, reason, now);
        }
        let ghost before = self@;

        // Flush link.
        self.flush_link(id, now);
        let ghost flushed = self@;

        // Mark link as unconfirmed and reset limits.
        let ghost entries = self.links@;
        if let Some(link) = &mut self.links[id] {
            link.reset();
            link.status.unconfirmed = Some((now, reason));
            link.unacked.txed_unacked_data = 0;
        }
        proof {
            lemma_link_replaced(entries, self.links@, id as int, self.links@[id as int]->0);
        }
        let _ = self.unflushed_links.remove(&id);

        // Mark packets as being resent and put them into resend queue.
        self.tx.requeue_link(id);
        assert(self@.unflushed =~= flushed.unflushed.remove(id));

        // Re-test other links that have failed testing.
        self.allow_retests();
        assert(self@ =~= before.unconfirm(id, reason, now));
    }

    /// Removes the link with the specified index.
    #[verifier::rlimit(40)]
    pub fn remove_link(&mut self, id: usize, reason: DisconnectReason, now: Instant)
        requires
            old(self)@.wf(),
            old(self)@.has(id as int),
        ensures
            final(self)@ == old(self)@.remove(id, reason, now),
            final(self)@.wf(),
    {
        proof {
            lemma_remove_wf(self@, id, reason, now);
            lemma_unconfirm_wf(self@, id, NotWorkingReason::Disconnecting, now);
        }
        let ghost before = self@;

        // Queue unconfirmed packets for resending.
        self.unconfirm_link(id, NotWorkingReason::Disconnecting, now);
        let ghost unconfirmed = self@;

        // Report disconnect reason.
        let link_id: LinkId = self.link_id_of(id);
        self.removed.push(RemovedLink { id, link_id, reason });
        let ghost entries = self.links@;
        self.links.set(id, None);
        proof {
            lemma_link_entries_update(entries, id as int, None);
        }

        // Cleanup links.
        let ghost all = self@.links;
        while self.links.len() > 0 && self.links[self.links.len() - 1].is_none()
            invariant
                trimmed(self@.links) == trimmed(all),
                self@ == (TaskState { links: self@.links, removed: self@.removed, ..unconfirmed }),
                self@.removed == unconfirmed.removed.push(RemovedLink { id, link_id, reason }),
            decreases self@.links.len(),
        {
            let ghost links = self@.links;
            let _ = self.links.pop();
            assert(self@.links =~= links.drop_last());
        }
        assert(self@ =~= before.remove(id, reason, now));
    }

    /// Index of the first empty entry in the list of links.
    fn find_empty(&self) -> (r: usize)
        ensures
            r == first_empty(self@.links),
            r <= self@.links.len(),
    {
        proof {
            lemma_first_empty(self@.links);
        }
        let mut id: usize = 0;
        while id < self.links.len() && self.links[id].is_some()
            invariant
                id <= self.links@.len(),
                forall|i: int| 0 <= i < id ==> #[trigger] self@.links[i] is Some,
            decreases self.links@.len() - id,
        {
            id += 1;
        }
        assert(id == first_empty(self@.links)) by {
            if id < first_empty(self@.links) {
                assert(self@.links[id as int] is Some);
            }
            if id > first_empty(self@.links) {
                assert(self@.links[first_empty(self@.links)] is Some);
            }
        }
        id
    }

    /// Adds a newly established link and returns its id.
    #[verifier::rlimit(40)]
    pub fn add_link(&mut self, link: LinkInt, now: Instant) -> (r: usize)
        requires
            old(self)@.wf(),
            old(self)@.info.remote_cfg is Some,
            link@.wf(),
            link@.status.test == LinkTest::Inactive,
            link@.unacked.txed_unacked_data == 0,
        ensures
            final(self)@ == old(self)@.add(link@, now),
            final(self)@.wf(),
            r == first_empty(old(self)@.links),
    {
        proof {
            lemma_add_wf(self@, link@, now);
        }
        let ghost before = self@;
        let added: LinkInt = made_ready(link, now);
        let id: usize = self.find_empty();
        let ghost entries = self.links@;
        if id < self.links.len() {
            self.links.set(id, Some(added));
            proof {
                lemma_link_entries_update(entries, id as int, Some(added));
            }
        } else {
            self.links.push(Some(added));
            assert(link_entries(self.links@) =~= link_entries(entries).push(Some(added@)));
        }
        assert(self@ =~= before.add(link@, now));
        id
    }
}

/// Makes a newly established link report when it is ready.
fn made_ready(link: LinkInt, now: Instant) -> (r: LinkInt)
    ensures
        r@ == ready_link(link@, now),
{
    let mut added: LinkInt = link;
    added.report_ready(now);
    let untested: bool = added.link_cfg().test_data_limit == 0;
    added.status.unconfirmed = if untested {
        None
    } else {
        Some((now, NotWorkingReason::New))
    };
    added
}

} // verus!
