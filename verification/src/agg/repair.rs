//! How packets are acknowledged and lost packets are sent again.

use crate::agg::limits::lemma_map_links_at;
use crate::agg::link_int::{acked, LinkIntEvent, LinkState, RxItem};
use crate::agg::rx::{filled_count, ReceivedReliableMsg};
use crate::agg::send::{lemma_first_queued_flush, resent_over};
use crate::agg::state::{SendOverrun, TaskState};
use crate::agg::turns::lemma_first_queued_is;
use crate::agg::tx::{is_on_link, lemma_leading_received, lemma_packet_index, lemma_receive_confirmed_wf};
use crate::agg::tx::{packet_size, SentReliableStatus, TxState};
use crate::buf::content;
use crate::cfg::{Cfg, ExchangedCfg, LinkCfg};
use crate::control::Direction;
use crate::error::LinkError;
use crate::id::{ConnId, LinkId};
use crate::msg::{MsgView, ReliableMsg};
use crate::seq::SeqNum;
use crate::time::{Duration, Instant};
use std::sync::Arc;
use vstd::prelude::*;

verus! {

/// An acknowledgement of a packet that arrives over the link over which the packet was sent, or while it is queued for
/// resending, confirms it: it needs not be sent again and no longer occupies the send buffer.
pub proof fn law_acknowledged_packet_is_confirmed(s: TxState, send_buffer: u32, id: int, k: int)
    requires
        s.wf(send_buffer),
        0 <= k < s.packets.len(),
        is_on_link(s.packets[k], id) || s.packets[k].status is ResendQueued,
    ensures
        ({
            let seq = s.packets[k].seq;
            let t = s.ack(id, seq);
            &&& t.unacked + packet_size(s.packets[k]) == s.unacked
            &&& t.tx_seq == s.tx_seq
            &&& t.unconsumed == s.unconsumed
            &&& t.packets.len() <= s.packets.len()
            &&& forall|j: int|
                #![trigger t.packets[j]]
                0 <= j < t.packets.len() && s.packets.len() - t.packets.len() + j == k ==> t.packets[j].status is Received
            &&& forall|j: int|
                #![trigger t.packets[j]]
                0 <= j < t.packets.len() && s.packets.len() - t.packets.len() + j != k ==> t.packets[j]
                    == s.packets[s.packets.len() - t.packets.len() + j]
        }),
{
    lemma_packet_index(s.packets, s.tx_seq, k);
    let r = s.receive_confirmed(k);
    assert(s.index_of(s.packets[k].seq) == Some(k));
    assert(s.confirms(id, s.packets[k].seq));
    lemma_leading_received(r.packets);
    assert(packet_size(s.packets[k]) <= u32::MAX);
    lemma_receive_confirmed_wf(s, k, send_buffer);
}

/// An acknowledgement of a packet that has meanwhile been sent over another link does not confirm it.
pub proof fn law_acknowledgement_of_another_link(s: TxState, send_buffer: u32, id: int, k: int)
    requires
        s.wf(send_buffer),
        0 <= k < s.packets.len(),
        s.packets[k].status is Sent,
        !is_on_link(s.packets[k], id),
    ensures
        s.ack(id, s.packets[k].seq).unacked == s.unacked,
{
    lemma_packet_index(s.packets, s.tx_seq, k);
}

/// The first of the lost packets is sent again as it was, with its message and its sequence number, over the specified
/// link, and is no longer queued.
pub proof fn law_lost_packet_is_sent_again(s: TaskState, id: usize, now: Instant, k: int)
    requires
        s.wf(),
        s.has(id as int),
        !s.link(id as int).tx.tx_failed,
        0 <= k < s.tx.packets.len(),
        s.tx.packets[k].status is ResendQueued,
        forall|j: int| 0 <= j < k ==> !((#[trigger] s.tx.packets[j]).status is ResendQueued),
    ensures
        ({
            let t = s.resend_reliable(id, now);
            let lost = s.tx.packets[k].status->ResendQueued_msg;
            &&& t.has(id as int)
            &&& t.link(id as int).tx.tx_msg == Some(lost.link_msg(s.tx.packets[k].seq))
            &&& t.link(id as int).tx.tx_data == lost.link_data()
            &&& t.tx.packets.len() == s.tx.packets.len()
            &&& t.tx.packets[k].seq == s.tx.packets[k].seq
            &&& t.tx.packets[k].status matches SentReliableStatus::Sent { sent, link_id, link, msg, resent, .. }
            &&& sent == now
            &&& link_id == id
            &&& link == s.link(id as int).info.link_id
            &&& msg == lost
            &&& resent
        }),
{
    lemma_first_queued_is(s.tx.packets, k);
    lemma_first_queued_flush(s.tx.packets, s.link(id as int).info.link_id, now);
    reveal(TaskState::send_msg);
}

/// A message that closes a channel is sent with the next sequence number, and that it was is noted.
pub proof fn law_closing_message_is_sent(s: TaskState, id: usize, msg: ReliableMsg, now: Instant)
    requires
        s.has(id as int),
        !s.link(id as int).tx.tx_failed,
    ensures
        ({
            let t = s.send_closing(id, msg, now);
            &&& t.has(id as int)
            &&& t.link(id as int).tx.tx_msg == Some(msg.link_msg(s.tx.tx_seq))
            &&& (msg is ReceiveClose ==> t.chan.receive_close_sent)
            &&& (msg is ReceiveFinish ==> t.chan.receive_finish_sent)
            &&& (msg is SendFinish ==> t.chan.send_finish_sent)
            &&& (s.chan.receive_close_sent ==> t.chan.receive_close_sent)
            &&& (s.chan.receive_finish_sent ==> t.chan.receive_finish_sent)
            &&& (s.chan.send_finish_sent ==> t.chan.send_finish_sent)
        }),
{
    reveal(TaskState::send_msg);
}

/// Flushing a link tells of the packets sent over it when they left, if that was not known. Other packets and what they
/// hold are left alone.
pub proof fn law_flushing_marks_packets(s: TxState, on: LinkId, now: Instant, k: int)
    requires
        0 <= k < s.packets.len(),
    ensures
        ({
            let t = s.flush(on, now);
            &&& t.packets.len() == s.packets.len()
            &&& t.packets[k].seq == s.packets[k].seq
            &&& match s.packets[k].status {
                SentReliableStatus::Sent { sent, flushed, link_id, link, msg, resent } => t.packets[k].status
                    == SentReliableStatus::Sent {
                    sent,
                    flushed: if flushed is None && link == on {
                        Some(now)
                    } else {
                        flushed
                    },
                    link_id,
                    link,
                    msg,
                    resent,
                },
                _ => t.packets[k] == s.packets[k],
            }
        }),
{
}

/// What is resent over a link counts as unacknowledged data of that link, and a raised limit has to prove itself by
/// what is sent after it.
pub proof fn law_resent_data_is_counted(link: LinkState, seq: SeqNum, size: nat)
    requires
        link.unacked.txed_unacked_data + size <= u64::MAX,
    ensures
        ({
            let t = resent_over(link, seq, size);
            &&& t.unacked.txed_unacked_data == link.unacked.txed_unacked_data + size
            &&& t.unacked.txed_unacked_data_limit == link.unacked.txed_unacked_data_limit
            &&& (link.unacked.txed_unacked_data_limit_increased matches Some(raised) ==> {
                &&& t.unacked.txed_unacked_data_limit_increased matches Some(needed)
                &&& (needed == seq <==> seq.precedes(raised) || seq == raised)
                &&& (needed != seq ==> needed == raised)
            })
            &&& (link.unacked.txed_unacked_data_limit_increased is None
                ==> t.unacked.txed_unacked_data_limit_increased is None)
        }),
{
}

/// What is sent next is the first lost packet, if there is one, and otherwise the next new one.
pub proof fn law_lost_packets_come_next(s: TaskState)
    ensures
        s.tx.resend_queue.len() > 0 ==> s.coming_seq() == s.tx.resend_queue[0],
        s.tx.resend_queue.len() == 0 ==> s.coming_seq() == s.tx.tx_seq,
{
}

/// Slowing down because of an overrun is possible again after a second.
pub proof fn law_overrun_handling_is_rearmed(s: TaskState, since: Instant, now: Instant)
    requires
        s.times.tx_overrun_since == Some(since),
    ensures
        ({
            let t = s.overrun_rearmed(now);
            &&& (now.nanos - since.nanos >= 1_000_000_000 ==> t.times.tx_overrun == SendOverrun::Armed
                && t.times.tx_overrun_since is None)
            &&& (now.nanos - since.nanos < 1_000_000_000 ==> t == s)
            &&& t.links == s.links
        }),
{
}

/// Raising limits starts anew with the first step of the schedule, once a quarter of the buffer is unconsumable.
pub proof fn law_schedule_starts_anew(s: TaskState, remote: u32, i: int)
    requires
        s.has(i),
    ensures
        ({
            let t = s.consecutive_reset(remote);
            let buffer = if remote < s.info.cfg.send_buffer {
                remote as int
            } else {
                s.info.cfg.send_buffer as int
            };
            let n = t.link(i).unacked.txed_unacked_data_limit_increased_consecutively;
            &&& t.has(i)
            &&& (s.tx.unconsumable >= buffer / 4 ==> n == 0)
            &&& (s.tx.unconsumable < buffer / 4 ==> t.link(i) == s.link(i))
        }),
{
    lemma_map_links_at(s, |l: LinkState| l.consecutive_reset(), i);
}

/// What the receive stream of a link tells is passed on: an error and its end make the link fail, the data that belongs
/// to a data message comes together with it, and every other message comes by itself. What cannot be read makes the
/// link fail, too. All bytes are counted.
pub proof fn law_received_items_are_passed_on(l: LinkState, item: RxItem, t: LinkState, event: Option<LinkIntEvent>)
    requires
        l.received(item, t, event),
    ensures
        item matches RxItem::Error(err) ==> event == Some(LinkIntEvent::RxError(err)) && t == l,
        item is End ==> event == Some(LinkIntEvent::RxError(LinkError::Closed)) && t == l,
        item matches RxItem::Packet(buf) ==> {
            &&& (l.stats.total_recved + content(buf).len() <= u64::MAX ==> t.stats.total_recved
                == l.stats.total_recved + content(buf).len())
            &&& t.stats.total_sent == l.stats.total_sent
            &&& (l.rxed_data_msg matches Some(msg) ==> event == Some(LinkIntEvent::Rx { msg, data: Some(buf) })
                && t.rxed_data_msg is None)
            &&& (l.rxed_data_msg is None ==> match MsgView::parse(content(buf)) {
                Err(err) => event == Some(LinkIntEvent::RxError(LinkError::Msg(err))),
                Ok(view) => if view is Data {
                    event is None && (t.rxed_data_msg matches Some(msg) && msg@ == view)
                } else {
                    event matches Some(LinkIntEvent::Rx { msg, data }) && msg@ == view && data is None
                        && t.rxed_data_msg is None
                },
            })
        },
{
}

/// Nothing sent over a link is unacknowledged any more once the last packet sent over it, or a later one, has been
/// acknowledged. No other message changes that.
pub proof fn law_last_acknowledgement_ends_waiting(unacked: Option<SeqNum>, msg: MsgView)
    ensures
        match (msg, unacked) {
            (MsgView::Ack { received }, Some(sent)) => acked(unacked, msg) is None <==> !received.precedes(sent),
            _ => acked(unacked, msg) == unacked,
        },
        acked(unacked, msg) is Some ==> acked(unacked, msg) == unacked,
{
}

/// A new link is not blocked and sends nothing by itself, except that an incoming one tells that it was accepted. Its
/// roundtrip time is that of its establishment, which is no reliable measurement, and its limit is what is configured.
pub proof fn law_new_link(
    link_id: LinkId,
    conn_id: ConnId,
    cfg: Arc<Cfg>,
    remote_cfg: ExchangedCfg,
    link_cfg: Option<LinkCfg>,
    direction: Direction,
    roundtrip: Duration,
    remote_user_data: Vec<u8>,
    now: Instant,
)
    ensures
        ({
            let l = LinkState::initial(
                link_id,
                conn_id,
                cfg,
                remote_cfg,
                link_cfg,
                direction,
                roundtrip,
                remote_user_data,
                now,
            );
            &&& l.info.link_id == link_id
            &&& l.info.conn_id == conn_id
            &&& l.info.remote_cfg == remote_cfg
            &&& l.info.link_cfg == link_cfg
            &&& l.info.cfg == cfg
            &&& l.info.direction == direction
            &&& l.info.remote_user_data == remote_user_data
            &&& l.status.needs_tx_accepted <==> direction == Direction::Incoming
            &&& !l.status.blocked && !l.status.remotely_blocked && !l.status.blocked_sent
            &&& l.status.disconnecting is None && !l.status.goodbye_sent
            &&& l.ping.roundtrip == roundtrip
            &&& l.ping.roundtrip_estimates == Some(0usize)
            &&& l.ping.current_ping_sent is None && !l.ping.send_ping && !l.ping.send_pong
            &&& l.unacked.txed_unacked_data == 0 && l.unacked.txed_unacked is None
            &&& l.unacked.txed_unacked_data_limit == l.eff_cfg().unacked_init
            &&& l.unacked.txed_unacked_data_limit_increased is None
            &&& l.tx.tx_msg is None && l.tx.tx_data is None && l.tx.tx_test is None && !l.tx.tx_failed
            &&& l.acks.len() == 0
            &&& l.rxed_data_msg is None
        }),
{
}

/// The statistics of a link tell how much data sent over it is unacknowledged, how much may be and its roundtrip time.
/// They have changed exactly if one of the intervals is over.
pub proof fn law_link_stats_are_published(l: LinkState, now: Instant)
    ensures
        ({
            let t = l.stats_published(now);
            &&& t.stats.sent_unacked == l.unacked.txed_unacked_data
            &&& t.stats.unacked_limit == l.unacked.txed_unacked_data_limit
            &&& t.stats.roundtrip == l.ping.roundtrip
            &&& t == (LinkState { stats: t.stats, ..l })
        }),
        l.stats.any_over(now) <==> exists|i: int|
            #![trigger l.stats.running[i]]
            0 <= i < l.stats.running.len() && now.nanos - l.stats.running[i].start.nanos
                > l.stats.running[i].interval.nanos,
{
    if l.stats.any_over(now) {
        let i = choose|i: int| 0 <= i < l.stats.running.len() && #[trigger] l.stats.is_over(i, now);
        assert(now.nanos - l.stats.running[i].start.nanos > l.stats.running[i].interval.nanos);
    }
    if exists|i: int|
        #![trigger l.stats.running[i]]
        0 <= i < l.stats.running.len() && now.nanos - l.stats.running[i].start.nanos
            > l.stats.running[i].interval.nanos {
        let i = choose|i: int|
            #![trigger l.stats.running[i]]
            0 <= i < l.stats.running.len() && now.nanos - l.stats.running[i].start.nanos
                > l.stats.running[i].interval.nanos;
        assert(l.stats.is_over(i, now));
    }
}

/// Each slot that holds a message counts once, and an empty one does not.
pub proof fn law_filled_slots_are_counted(slots: Seq<Option<ReceivedReliableMsg>>, slot: Option<ReceivedReliableMsg>)
    ensures
        filled_count(Seq::<Option<ReceivedReliableMsg>>::empty()) == 0,
        filled_count(slots.push(slot)) == filled_count(slots) + (if slot is Some {
            1nat
        } else {
            0nat
        }),
    decreases slots.len(),
{
    reveal_with_fuel(filled_count, 2);
    if slots.len() > 0 {
        law_filled_slots_are_counted(slots.drop_first(), slot);
        assert(slots.push(slot).drop_first() =~= slots.drop_first().push(slot));
    } else {
        assert(slots.push(slot).drop_first() =~= Seq::empty());
    }
}

} // verus!
