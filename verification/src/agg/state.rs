//! State of the link aggregator task.

use crate::agg::link_int::{LinkInt, LinkState};
use crate::agg::rx::{ReceiveBuffer, RxState};
use crate::agg::tx::{total, SendBuffer, SentReliable, SentReliableStatus, Tally, TxState};
use crate::agg::tx::lemma_flush_wf;
use crate::alc::{RecvError, SendError};
use crate::cfg::{Cfg, ExchangedCfg};
use crate::control::{Direction, DisconnectReason};
use crate::id::{ConnId, LinkId};
use crate::peekable_mpsc::PeekableReceiver;
use crate::time::Instant;
use bytes::Bytes;
use std::collections::HashSet;
use std::sync::Arc;
use vstd::prelude::*;

verus! {

/// A send request to the link aggregator task.
#[derive(Debug)]
pub enum SendReq {
    /// Send data.
    Send(Bytes),
    /// Flush.
    Flush,
}

/// Send overrun handling.
#[derive(Debug, Clone, Copy, PartialEq, Eq, Structural)]
pub enum SendOverrun {
    /// Send overrun handling is armed.
    Armed,
    /// Soft handling has occurred.
    Soft,
    /// Hard handling has occurred.
    Hard,
}

/// A link that has been removed from the connection.
#[derive(Debug)]
pub struct RemovedLink {
    /// Index of the link.
    pub id: usize,
    /// Link id.
    pub link_id: LinkId,
    /// Reason for its disconnection.
    pub reason: DisconnectReason,
}

/// Identification and configuration of a connection.
#[derive(Debug)]
pub struct TaskInfo {
    /// Local configuration.
    pub cfg: Arc<Cfg>,
    /// Configuration of remote endpoint.
    /// `None` if not connected yet.
    pub remote_cfg: Option<ExchangedCfg>,
    /// Connection identifier.
    pub conn_id: ConnId,
    /// Connection direction.
    pub direction: Direction,
}

/// Status of the channels of a connection.
#[derive(Debug)]
pub struct TaskChannels {
    /// Whether new links may be established.
    pub link_rx_open: bool,
    /// Whether received messages are sent to the user.
    pub read_open: bool,
    /// Whether the user may request that the receive channel be closed.
    pub read_closed_open: bool,
    /// ReceiveClose message has been sent.
    pub receive_close_sent: bool,
    /// ReceiveFinish message has been sent.
    pub receive_finish_sent: bool,
    /// Whether remote endpoint closed its receiver.
    pub write_closed: bool,
    /// SendFinish message has been sent.
    pub send_finish_sent: bool,
}

/// Errors reported to the user of a connection.
#[derive(Debug)]
pub struct TaskErrors {
    /// Error for reading.
    pub read_error: Option<RecvError>,
    /// Error for writing.
    pub write_error: SendError,
}

/// Points in time that matter for a connection.
#[derive(Debug)]
pub struct TaskTimes {
    /// Since when no link is working.
    pub links_not_working_since: Option<Instant>,
    /// Time when both channels were closed.
    pub read_write_closed: Option<Instant>,
    /// Time when connection was established.
    pub established: Option<Instant>,
    /// Time when connection statistics were last sent.
    pub stats_last_sent: Instant,
    /// Since when send overrun condition is active.
    pub tx_overrun_since: Option<Instant>,
    /// Send overrun handling.
    pub tx_overrun: SendOverrun,
    /// Whether the establishment of the connection has to be notified.
    pub connect_pending: bool,
    /// Whether the completion of flushing has to be notified.
    pub flush_pending: bool,
}

/// Task managing a connection of aggregated links.
///
/// This holds the state of a connection and decides what to do next. Sending and receiving over
/// the links and waiting for events is done by its owner.
#[derive(Debug)]
pub struct Task {
    /// Identification and configuration.
    pub info: TaskInfo,
    /// Established links.
    pub links: Vec<Option<LinkInt>>,
    /// Ids of links that are ready to send data.
    pub idle_links: Vec<usize>,
    /// Ids of links that are currently being flushed by user request.
    pub unflushed_links: HashSet<usize>,
    /// Status of the channels.
    pub chan: TaskChannels,
    /// Channel for receiving messages to send from user.
    pub write_rx: Option<PeekableReceiver<SendReq>>,
    /// Errors reported to the user.
    pub errors: TaskErrors,
    /// Points in time.
    pub times: TaskTimes,
    /// Sent messages.
    pub tx: SendBuffer,
    /// Received messages.
    pub rx: ReceiveBuffer,
    /// Links that have been removed since the owner last asked.
    pub removed: Vec<RemovedLink>,
}

/// Mathematical model of the link aggregator task.
#[verifier::ext_equal]
pub struct TaskState {
    /// Identification and configuration.
    pub info: TaskInfo,
    /// Established links.
    pub links: Seq<Option<LinkState>>,
    /// Ids of links that are ready to send data.
    pub idle: Seq<usize>,
    /// Ids of links that are currently being flushed by user request.
    pub unflushed: Set<usize>,
    /// Status of the channels.
    pub chan: TaskChannels,
    /// Channel for receiving messages to send from user.
    pub write_rx: Option<PeekableReceiver<SendReq>>,
    /// Errors reported to the user.
    pub errors: TaskErrors,
    /// Points in time.
    pub times: TaskTimes,
    /// Sent messages.
    pub tx: TxState,
    /// Received messages.
    pub rx: RxState,
    /// Links that have been removed since the owner last asked.
    pub removed: Seq<RemovedLink>,
}

/// Model of an entry of the list of links.
pub open spec fn link_entry(link: Option<LinkInt>) -> Option<LinkState> {
    match link {
        Some(link) => Some(link@),
        None => None,
    }
}

/// Model of the list of links.
pub open spec fn link_entries(links: Seq<Option<LinkInt>>) -> Seq<Option<LinkState>> {
    Seq::new(links.len(), |i: int| link_entry(links[i]))
}

impl View for Task {
    type V = TaskState;

    open spec fn view(&self) -> TaskState {
        TaskState {
            info: self.info,
            links: link_entries(self.links@),
            idle: self.idle_links@,
            unflushed: self.unflushed_links@,
            chan: self.chan,
            write_rx: self.write_rx,
            errors: self.errors,
            times: self.times,
            tx: self.tx@,
            rx: self.rx@,
            removed: self.removed@,
        }
    }
}

/// The ids without the specified one, in the same order.
pub open spec fn without(ids: Seq<usize>, id: usize) -> Seq<usize>
    decreases ids.len(),
{
    if ids.len() == 0 {
        Seq::empty()
    } else if ids.last() == id {
        without(ids.drop_last(), id)
    } else {
        without(ids.drop_last(), id).push(ids.last())
    }
}

/// What remains without an id are the other ids, still distinct.
pub proof fn lemma_without(ids: Seq<usize>, id: usize)
    ensures
        forall|x: usize| #![trigger without(ids, id).contains(x)] without(ids, id).contains(x) <==> ids.contains(x)
            && x != id,
        ids.no_duplicates() ==> without(ids, id).no_duplicates(),
    decreases ids.len(),
{
    if ids.len() > 0 {
        let front = ids.drop_last();
        let w = without(front, id);
        lemma_without(front, id);
        assert forall|x: usize| #![trigger without(ids, id).contains(x)] without(ids, id).contains(x)
            <==> ids.contains(x) && x != id by {
            if ids.contains(x) && x != id {
                let k = choose|k: int| 0 <= k < ids.len() && ids[k] == x;
                if k < front.len() {
                    assert(front[k] == x);
                    assert(w.contains(x));
                    let j = choose|j: int| 0 <= j < w.len() && w[j] == x;
                    assert(without(ids, id)[j] == x);
                } else {
                    assert(without(ids, id)[w.len() as int] == x);
                }
            }
            if without(ids, id).contains(x) {
                let j = choose|j: int| 0 <= j < without(ids, id).len() && without(ids, id)[j] == x;
                if j < w.len() {
                    assert(w[j] == x);
                    assert(w.contains(x));
                    let k = choose|k: int| 0 <= k < front.len() && front[k] == x;
                    assert(ids[k] == x);
                } else {
                    assert(ids[ids.len() - 1] == x);
                }
            }
        }
        if ids.no_duplicates() {
            assert(front.no_duplicates());
            if ids.last() != id {
                assert forall|i: int, j: int| 0 <= i < w.len() + 1 && 0 <= j < w.len() + 1 && i != j implies
                    without(ids, id)[i] != without(ids, id)[j] by {
                    if i == w.len() || j == w.len() {
                        let m = if i == w.len() {
                            j
                        } else {
                            i
                        };
                        assert(w.contains(w[m]));
                        let k = choose|k: int| 0 <= k < front.len() && front[k] == w[m];
                        assert(ids[k] == w[m]);
                    }
                }
            }
        }
    }
}

/// Whether a link may be in the list of idle links: nothing is waiting for transmission over it,
/// it is confirmed and it is not blocked.
pub open spec fn may_idle(link: LinkState) -> bool {
    &&& link.tx.tx_polling is None
    &&& link.status.unconfirmed is None
    &&& !link.is_blocked()
}

impl TaskState {
    /// Whether there is a link with the specified index.
    pub open spec fn has(self, id: int) -> bool {
        0 <= id < self.links.len() && self.links[id] is Some
    }

    /// Link with the specified index.
    pub open spec fn link(self, id: int) -> LinkState {
        self.links[id]->0
    }

    /// State with another link at the specified index.
    pub open spec fn set_link(self, id: int, link: LinkState) -> TaskState {
        TaskState { links: self.links.update(id, Some(link)), ..self }
    }

    /// State after removing a link from the list of idle links.
    pub open spec fn not_idle(self, id: usize) -> TaskState {
        TaskState { idle: without(self.idle, id), ..self }
    }

    /// Receive buffer size of the remote endpoint.
    pub open spec fn remote_recv_buffer(self) -> Option<u32> {
        match self.info.remote_cfg {
            Some(cfg) => Some(cfg.recv_buffer),
            None => None,
        }
    }

    /// Space available in buffers necessary for sending data.
    pub open spec fn tx_space(self) -> u64 {
        self.tx.space(self.info.cfg.send_buffer, self.remote_recv_buffer())
    }

    /// Invariant of the task.
    #[verifier::opaque]
    pub open spec fn wf(self) -> bool {
        &&& self.cfg_wf()
        &&& self.links_wf()
        &&& self.buffers_wf()
        &&& self.packets_wf()
        &&& self.idle_wf()
        &&& self.unflushed_wf()
    }

    /// The configurations are valid and that of the remote endpoint is known once there is a link.
    pub open spec fn cfg_wf(self) -> bool {
        &&& self.info.cfg.wf()
        &&& (self.info.remote_cfg matches Some(cfg) ==> cfg.wf())
        &&& (self.links.len() > 0 ==> self.info.remote_cfg is Some)
        &&& (self.links.len() > 0 ==> self.links.last() is Some)
    }

    /// Each link fulfils its invariant.
    pub open spec fn links_wf(self) -> bool {
        forall|id: int| #![trigger self.has(id)] self.has(id) ==> self.link(id).wf()
    }

    /// The buffers fulfil their invariants and no more data is on its way to the remote endpoint
    /// than its receive buffer can hold.
    pub open spec fn buffers_wf(self) -> bool {
        &&& self.tx.wf(self.info.cfg.send_buffer)
        &&& self.rx.wf(self.info.cfg.recv_buffer)
        &&& match self.remote_recv_buffer() {
            Some(size) => self.tx.unconsumed <= size,
            None => self.tx.unconsumed == 0,
        }
    }

    /// Each packet whose reception is not yet confirmed was sent over a link that is present
    /// and each link knows how much data sent over it is not yet confirmed.
    pub open spec fn packets_wf(self) -> bool {
        &&& forall|k: int|
            0 <= k < self.tx.packets.len() ==> self.packet_link_wf(#[trigger] self.tx.packets[k])
        &&& forall|id: int|
            #![trigger self.has(id)]
            self.has(id) ==> self.link(id).unacked.txed_unacked_data == total(
                Tally::OnLink(id),
                self.tx.packets,
            )
    }

    /// The link over which a packet was sent is present.
    pub open spec fn packet_link_wf(self, p: SentReliable) -> bool {
        p.status matches SentReliableStatus::Sent { link_id, link, .. } ==> self.has(link_id as int) && self.link(
            link_id as int,
        ).info.link_id == link
    }

    /// The idle links are present, distinct and may be idle.
    pub open spec fn idle_wf(self) -> bool {
        &&& self.idle.no_duplicates()
        &&& forall|id: usize|
            #![trigger self.idle.contains(id)]
            self.idle.contains(id) ==> self.has(id as int) && may_idle(self.link(id as int))
    }

    /// Only links that are present are waited for to be flushed.
    pub open spec fn unflushed_wf(self) -> bool {
        &&& self.unflushed.finite()
        &&& forall|id: usize|
            #![trigger self.unflushed.contains(id)]
            self.unflushed.contains(id) ==> self.has(id as int)
    }
}

/// What the invariant says of one link.
pub proof fn lemma_wf_link(s: TaskState, id: int)
    requires
        s.wf(),
        s.has(id),
    ensures
        s.link(id).wf(),
        s.link(id).unacked.txed_unacked_data == total(Tally::OnLink(id), s.tx.packets),
        s.info.remote_cfg is Some,
        s.idle.contains(id as usize) && id <= usize::MAX ==> may_idle(s.link(id)),
{
    reveal(TaskState::wf);
}

/// What the invariant says of the configuration and the buffers.
pub proof fn lemma_wf_buffers(s: TaskState)
    requires
        s.wf(),
    ensures
        s.cfg_wf(),
        s.buffers_wf(),
{
    reveal(TaskState::wf);
}

/// What the invariant says of an idle link.
pub proof fn lemma_wf_idle(s: TaskState, id: usize)
    requires
        s.wf(),
        s.idle.contains(id),
    ensures
        s.has(id as int),
        may_idle(s.link(id as int)),
        s.link(id as int).wf(),
{
    reveal(TaskState::wf);
}

/// Changing a link keeps the invariant, as long as it stays the same link with the same amount of
/// unacknowledged data and may still be idle, if it is.
pub proof fn lemma_set_link_wf(s: TaskState, id: int, link: LinkState)
    requires
        s.wf(),
        s.has(id),
        link.wf(),
        link.info.link_id == s.link(id).info.link_id,
        link.unacked.txed_unacked_data == s.link(id).unacked.txed_unacked_data,
        s.idle.contains(id as usize) ==> may_idle(link),
    ensures
        s.set_link(id, link).wf(),
        s.set_link(id, link).has(id),
        s.set_link(id, link).link(id) == link,
{
    reveal(TaskState::wf);
    let t = s.set_link(id, link);
    assert forall|i: int| #![trigger t.has(i)] t.has(i) implies t.link(i).wf() && t.link(
        i,
    ).unacked.txed_unacked_data == total(Tally::OnLink(i), t.tx.packets) by {
        assert(s.has(i));
    }
    assert forall|k: int| 0 <= k < t.tx.packets.len() implies t.packet_link_wf(#[trigger] t.tx.packets[k]) by {
        assert(s.packet_link_wf(s.tx.packets[k]));
    }
    assert forall|i: usize| #![trigger t.idle.contains(i)] t.idle.contains(i) implies t.has(i as int) && may_idle(
        t.link(i as int),
    ) by {
        assert(s.idle.contains(i));
    }
    assert forall|i: usize| #![trigger t.unflushed.contains(i)] t.unflushed.contains(i) implies t.has(i as int) by {
        assert(s.unflushed.contains(i));
    }
}

/// Removing a link from the list of idle links keeps the invariant.
pub proof fn lemma_not_idle_wf(s: TaskState, id: usize)
    requires
        s.wf(),
    ensures
        s.not_idle(id).wf(),
        !s.not_idle(id).idle.contains(id),
        forall|i: int| #![trigger s.not_idle(id).has(i)] s.not_idle(id).has(i) == s.has(i),
{
    reveal(TaskState::wf);
    lemma_without(s.idle, id);
    let t = s.not_idle(id);
    assert forall|i: int| #![trigger t.has(i)] t.has(i) implies t.link(i).wf() && t.link(
        i,
    ).unacked.txed_unacked_data == total(Tally::OnLink(i), t.tx.packets) by {
        assert(s.has(i));
    }
    assert forall|k: int| 0 <= k < t.tx.packets.len() implies t.packet_link_wf(#[trigger] t.tx.packets[k]) by {
        assert(s.packet_link_wf(s.tx.packets[k]));
    }
    assert forall|i: usize| #![trigger t.idle.contains(i)] t.idle.contains(i) implies t.has(i as int) && may_idle(
        t.link(i as int),
    ) by {
        assert(s.idle.contains(i));
    }
    assert forall|i: usize| #![trigger t.unflushed.contains(i)] t.unflushed.contains(i) implies t.has(i as int) by {
        assert(s.unflushed.contains(i));
    }
}

/// Changing nothing but statuses, errors, points in time and removed links keeps the invariant.
pub proof fn lemma_frame_wf(s: TaskState, t: TaskState)
    requires
        s.wf(),
        t == (TaskState {
            chan: t.chan,
            write_rx: t.write_rx,
            errors: t.errors,
            times: t.times,
            removed: t.removed,
            ..s
        }),
    ensures
        t.wf(),
        forall|i: int| #![trigger t.has(i)] t.has(i) == s.has(i),
{
    reveal(TaskState::wf);
    assert forall|i: int| #![trigger t.has(i)] t.has(i) implies t.link(i).wf() && t.link(
        i,
    ).unacked.txed_unacked_data == total(Tally::OnLink(i), t.tx.packets) by {
        assert(s.has(i));
    }
    assert forall|k: int| 0 <= k < t.tx.packets.len() implies t.packet_link_wf(#[trigger] t.tx.packets[k]) by {
        assert(s.packet_link_wf(s.tx.packets[k]));
    }
    assert forall|i: usize| #![trigger t.idle.contains(i)] t.idle.contains(i) implies t.has(i as int) && may_idle(
        t.link(i as int),
    ) by {
        assert(s.idle.contains(i));
    }
    assert forall|i: usize| #![trigger t.unflushed.contains(i)] t.unflushed.contains(i) implies t.has(i as int) by {
        assert(s.unflushed.contains(i));
    }
}

/// Changing the buffer of received messages keeps the invariant.
pub proof fn lemma_set_rx_wf(s: TaskState, rx: RxState)
    requires
        s.wf(),
        rx.wf(s.info.cfg.recv_buffer),
    ensures
        (TaskState { rx, ..s }).wf(),
{
    reveal(TaskState::wf);
    let t = TaskState { rx, ..s };
    assert forall|i: int| #![trigger t.has(i)] t.has(i) implies t.link(i).wf() && t.link(
        i,
    ).unacked.txed_unacked_data == total(Tally::OnLink(i), t.tx.packets) by {
        assert(s.has(i));
    }
    assert forall|k: int| 0 <= k < t.tx.packets.len() implies t.packet_link_wf(#[trigger] t.tx.packets[k]) by {
        assert(s.packet_link_wf(s.tx.packets[k]));
    }
    assert forall|i: usize| #![trigger t.idle.contains(i)] t.idle.contains(i) implies t.has(i as int) && may_idle(
        t.link(i as int),
    ) by {
        assert(s.idle.contains(i));
    }
    assert forall|i: usize| #![trigger t.unflushed.contains(i)] t.unflushed.contains(i) implies t.has(i as int) by {
        assert(s.unflushed.contains(i));
    }
}

/// Changing the buffer of sent messages keeps the invariant, if the packets on the links stay the same.
pub proof fn lemma_set_tx_wf(s: TaskState, tx: TxState)
    requires
        s.wf(),
        tx.wf(s.info.cfg.send_buffer),
        tx.unconsumed <= s.tx.unconsumed,
        forall|k: int| 0 <= k < tx.packets.len() ==> s.packet_link_wf(#[trigger] tx.packets[k]),
        forall|id: int|
            #![trigger s.has(id)]
            s.has(id) ==> total(Tally::OnLink(id), tx.packets) == total(Tally::OnLink(id), s.tx.packets),
    ensures
        (TaskState { tx, ..s }).wf(),
{
    reveal(TaskState::wf);
    let t = TaskState { tx, ..s };
    assert forall|i: int| #![trigger t.has(i)] t.has(i) implies t.link(i).wf() && t.link(
        i,
    ).unacked.txed_unacked_data == total(Tally::OnLink(i), t.tx.packets) by {
        assert(s.has(i));
    }
    assert forall|k: int| 0 <= k < t.tx.packets.len() implies t.packet_link_wf(#[trigger] t.tx.packets[k]) by {
        assert(s.packet_link_wf(tx.packets[k]));
    }
    assert forall|i: usize| #![trigger t.idle.contains(i)] t.idle.contains(i) implies t.has(i as int) && may_idle(
        t.link(i as int),
    ) by {
        assert(s.idle.contains(i));
    }
    assert forall|i: usize| #![trigger t.unflushed.contains(i)] t.unflushed.contains(i) implies t.has(i as int) by {
        assert(s.unflushed.contains(i));
    }
}

/// Flushing packets keeps the invariant.
pub proof fn lemma_tx_flush_wf(s: TaskState, on: LinkId, now: Instant)
    requires
        s.wf(),
    ensures
        (TaskState { tx: s.tx.flush(on, now), ..s }).wf(),
{
    reveal(TaskState::wf);
    let tx = s.tx.flush(on, now);
    lemma_flush_wf(s.tx, on, now, s.info.cfg.send_buffer);
    assert forall|k: int| 0 <= k < tx.packets.len() implies s.packet_link_wf(#[trigger] tx.packets[k]) by {
        assert(s.packet_link_wf(s.tx.packets[k]));
    }
    lemma_set_tx_wf(s, tx);
}

/// Replacing an entry of the list of links replaces its model.
pub proof fn lemma_link_entries_update(links: Seq<Option<LinkInt>>, i: int, link: Option<LinkInt>)
    requires
        0 <= i < links.len(),
    ensures
        link_entries(links.update(i, link)) == link_entries(links).update(i, link_entry(link)),
{
    assert(link_entries(links.update(i, link)) =~= link_entries(links).update(i, link_entry(link)));
}

impl Task {
    /// Removes a link from the list of idle links.
    pub fn remove_idle(&mut self, id: usize)
        ensures
            final(self)@ == old(self)@.not_idle(id),
    {
        let mut kept: Vec<usize> = Vec::new();
        let mut i: usize = 0;
        let ghost idle = self.idle_links@;
        assert(idle.take(0) =~= Seq::empty());
        while i < self.idle_links.len()
            invariant
                idle == self.idle_links@,
                i <= idle.len(),
                kept@ == without(idle.take(i as int), id),
            decreases idle.len() - i,
        {
            assert(idle.take(i + 1).drop_last() =~= idle.take(i as int));
            if self.idle_links[i] != id {
                kept.push(self.idle_links[i]);
            }
            i += 1;
        }
        assert(idle.take(i as int) =~= idle);
        self.idle_links = kept;
    }

    /// Receive buffer size of the remote endpoint.
    pub fn remote_recv_buffer(&self) -> (r: Option<u32>)
        ensures
            r == self@.remote_recv_buffer(),
    {
        match &self.info.remote_cfg {
            Some(cfg) => Some(cfg.recv_buffer),
            None => None,
        }
    }

    /// Space available in buffers necessary for sending data.
    pub fn tx_space(&self) -> (r: u64)
        ensures
            r == self@.tx_space(),
    {
        self.tx.tx_space(self.info.cfg.send_buffer, self.remote_recv_buffer())
    }

    /// Returns whether a sequence number is available for sending.
    pub fn tx_seq_avail(&self) -> (r: bool)
        ensures
            r == self@.tx.seq_avail(),
    {
        self.tx.tx_seq_avail()
    }

    /// Returns whether sending a Consumed message is required.
    pub fn is_consume_ack_required(&self) -> (r: bool)
        ensures
            r == self@.rx.consume_ack_required(self@.info.cfg.recv_buffer),
    {
        self.rx.is_consume_ack_required(&self.info.cfg)
    }

    /// Starts flushing the specified link.
    pub fn flush_link(&mut self, id: usize, now: Instant)
        requires
            old(self)@.wf(),
            old(self)@.has(id as int),
        ensures
            final(self)@ == old(self)@.flush_link(id, now),
            final(self)@.wf(),
    {
        let ghost before = self@;
        let ghost entries = self.links@;
        proof {
            lemma_flush_link_wf(before, id, now);
        }
        if let Some(link) = &mut self.links[id] {
            link.start_flush(now);
            let link_id: LinkId = link.info.link_id;
            self.tx.mark_txed_packets_flushed(link_id, now);
        }
        proof {
            lemma_link_entries_update(entries, id as int, self.links@[id as int]);
            assert(self.links@ =~= entries.update(id as int, self.links@[id as int]));
        }
        self.remove_idle(id);
        assert(self@ =~= before.flush_link(id, now));
    }
}

impl TaskState {
    /// State after starting to flush the specified link.
    pub open spec fn flush_link(self, id: usize, now: Instant) -> TaskState {
        let link = self.link(id as int);
        let s = self.not_idle(id).set_link(id as int, link.flushing(now));
        TaskState { tx: self.tx.flush(link.info.link_id, now), ..s }
    }
}

/// Flushing a link keeps the invariant.
pub proof fn lemma_flush_link_wf(s: TaskState, id: usize, now: Instant)
    requires
        s.wf(),
        s.has(id as int),
    ensures
        s.flush_link(id, now).wf(),
{
    let link = s.link(id as int);
    lemma_wf_link(s, id as int);
    lemma_not_idle_wf(s, id);
    let s1 = s.not_idle(id);
    assert(s1.has(id as int));
    lemma_set_link_wf(s1, id as int, link.flushing(now));
    lemma_tx_flush_wf(s1.set_link(id as int, link.flushing(now)), link.info.link_id, now);
}

} // verus!
