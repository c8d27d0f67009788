//! Send and receive buffers and link state.

use std::sync::Arc;

use aggligator::agg::link_int::{
    Deadline, FlushReason, LinkInt, LinkIntEvent, LinkTermination, RxItem, TestRequest, TxReady, TxStep,
};
use aggligator::agg::rx::{Place, ReceiveBuffer, ReceivedReliableMsg};
use aggligator::agg::stats::LinkStatistican;
use aggligator::agg::tx::{Confirmation, SendBuffer, SentReliableStatus, Unconfirmed};
use aggligator::cfg::{Cfg, ExchangedCfg};
use aggligator::control::Direction;
use aggligator::error::{LinkError, ProtocolError};
use aggligator::exec::runtime::Handle;
use aggligator::exec::time as exec_time;
use aggligator::id::{ConnId, LinkId};
use aggligator::msg::{LinkMsg, ReliableMsg};
use aggligator::seq::SeqNum;
use aggligator::time::{Duration, Instant};
use bytes::Bytes;

fn at(millis: u64) -> Instant {
    Instant { nanos: millis * 1_000_000 }
}

fn data(text: &'static str) -> ReliableMsg {
    ReliableMsg::Data(Bytes::from_static(text.as_bytes()))
}

fn receive(rx: &mut ReceiveBuffer, seq: u32, msg: ReliableMsg) {
    let seq = SeqNum(seq);
    if let Place::New(offset) = rx.find_place(seq).unwrap() {
        rx.store_msg(offset, ReceivedReliableMsg { seq, msg });
    }
    rx.forward_ready();
}

fn consume(rx: &mut ReceiveBuffer) -> Vec<String> {
    let mut texts = Vec::new();
    while let Some(received) = rx.take_consumable() {
        match received.msg {
            ReliableMsg::Data(data) => {
                rx.data_consumed(data.len());
                texts.push(String::from_utf8(data.to_vec()).unwrap());
            }
            other => texts.push(format!("{other:?}")),
        }
    }
    texts
}

#[test]
fn messages_become_consumable_in_order() {
    let mut rx = ReceiveBuffer::new();
    receive(&mut rx, 2, data("c"));
    receive(&mut rx, 1, data("bb"));
    assert_eq!(rx.rxed_reliable_size, 3);
    assert_eq!(rx.unconsumed_count(), 2);
    assert!(consume(&mut rx).is_empty());
    receive(&mut rx, 0, data("a"));
    receive(&mut rx, 1, data("bb"));
    receive(&mut rx, 3, ReliableMsg::Consumed(7));
    receive(&mut rx, 4, ReliableMsg::SendFinish);
    assert_eq!(rx.rx_seq, SeqNum(5));
    assert_eq!(consume(&mut rx), vec!["a", "bb", "c", "SendFinish"]);
    assert_eq!(rx.rxed_reliable_size, 0);
    assert_eq!(rx.rxed_reliable_consumed_since_last_ack, 4);
}

#[test]
fn places_of_messages_are_found() {
    let mut rx = ReceiveBuffer::new();
    assert_eq!(rx.find_place(SeqNum(3)), Ok(Place::New(3)));
    assert_eq!(rx.find_place(SeqNum(0xffff_ffff)), Ok(Place::Known));
    receive(&mut rx, 3, data("x"));
    assert_eq!(rx.find_place(SeqNum(3)), Ok(Place::Known));
    assert_eq!(rx.find_place(SeqNum(0x3fff_ffff)), Ok(Place::New(0x3fff_ffff)));
    assert_eq!(rx.find_place(SeqNum(0x7000_0000)), Err(ProtocolError::SeqUnderflow));
}

#[test]
fn receive_buffer_overflow_is_detected() {
    let cfg = Cfg { recv_buffer: 5, ..Cfg::default() };
    let mut rx = ReceiveBuffer::new();
    receive(&mut rx, 0, data("abc"));
    assert!(!rx.would_overflow(&data("de"), &cfg));
    assert!(rx.would_overflow(&data("def"), &cfg));
    assert!(!rx.would_overflow(&ReliableMsg::SendFinish, &cfg));
}

#[test]
fn consumed_data_is_acknowledged() {
    let cfg = Cfg { recv_buffer: 100, ..Cfg::default() };
    let mut rx = ReceiveBuffer::new();
    receive(&mut rx, 0, data("0123456789"));
    consume(&mut rx);
    assert!(!rx.is_consume_ack_required(&cfg));
    receive(&mut rx, 1, data("x"));
    consume(&mut rx);
    assert!(rx.is_consume_ack_required(&cfg));
}

#[test]
fn packets_are_acknowledged() {
    let mut tx = SendBuffer::new();
    assert_eq!(tx.push_sent(0, LinkId(10), data("abc"), at(1)), SeqNum(0));
    assert_eq!(tx.push_sent(1, LinkId(11), data("de"), at(2)), SeqNum(1));
    assert_eq!((tx.txed_unacked, tx.txed_unconsumed), (5, 5));
    assert_eq!(tx.tx_space(8, Some(100)), 3);
    assert_eq!(tx.tx_space(100, Some(6)), 1);
    assert_eq!(tx.tx_space(100, None), 0);
    // Acknowledgement over the wrong link is ignored.
    assert_eq!(tx.handle_ack(0, SeqNum(1)), None);
    assert_eq!(tx.handle_ack(1, SeqNum(1)), Some(Confirmation { size: 2, sent: Some(at(2)) }));
    assert_eq!((tx.txed_unacked, tx.txed_unconsumable), (3, 2));
    assert_eq!(tx.handle_ack(1, SeqNum(1)), None);
    assert_eq!(tx.txed_packets.len(), 2);
    assert_eq!(tx.handle_ack(0, SeqNum(0)), Some(Confirmation { size: 3, sent: Some(at(1)) }));
    assert_eq!((tx.txed_unacked, tx.txed_unconsumable), (0, 0));
    assert!(tx.txed_packets.is_empty());
    assert_eq!(tx.txed_last_consumed, SeqNum(1));
    assert!(tx.record_consumed(4));
    assert_eq!(tx.txed_unconsumed, 1);
    assert!(!tx.record_consumed(2));
    assert_eq!(tx.txed_unconsumed, 1);
}

#[test]
fn packets_are_resent_in_order() {
    let mut tx = SendBuffer::new();
    tx.push_sent(0, LinkId(10), data("a"), at(1));
    tx.push_sent(1, LinkId(11), data("b"), at(1));
    tx.push_sent(0, LinkId(10), data("c"), at(1));
    tx.mark_txed_packets_flushed(LinkId(11), at(2));
    assert_eq!(
        tx.oldest_unconfirmed(),
        Some(Unconfirmed { link_id: 0, sent: at(1), flushed: None, resent: false })
    );
    tx.requeue_link(0);
    assert_eq!(tx.resend_queue.iter().copied().collect::<Vec<_>>(), vec![SeqNum(0), SeqNum(2)]);
    let (seq, msg, sent_link) = tx.next_resend().unwrap();
    assert_eq!((seq, msg.size(), sent_link), (SeqNum(0), 1, LinkId(10)));
    assert_eq!(
        tx.oldest_unconfirmed(),
        Some(Unconfirmed { link_id: 1, sent: at(1), flushed: Some(at(2)), resent: false })
    );
    tx.resend_front(1, LinkId(11), at(5));
    let SentReliableStatus::Sent { link_id, resent, sent, .. } = &tx.txed_packets[0].status else {
        panic!("packet was not sent")
    };
    assert_eq!((*link_id, *resent, *sent), (1, true, at(5)));
    assert_eq!(tx.resend_queue.len(), 1);
    // A packet that is queued for resending may still be acknowledged.
    assert_eq!(tx.handle_ack(0, SeqNum(2)), Some(Confirmation { size: 1, sent: None }));
    assert!(tx.resend_queue.is_empty());
    assert!(tx.tx_seq_avail());
}

fn link(cfg: Cfg) -> LinkInt {
    LinkInt::new(
        ConnId(1),
        Arc::new(cfg),
        ExchangedCfg { recv_buffer: 1000 },
        None,
        Direction::Outgoing,
        Duration::from_millis(10),
        Vec::new(),
        at(0),
    )
}

#[test]
fn message_with_data_is_handed_to_the_sink() {
    let mut link = link(Cfg::default());
    assert_eq!(link.tx_step(), TxStep::Wait);
    let flushing = link.start_send_msg(LinkMsg::Data { seq: SeqNum(1) }, Some(Bytes::from_static(b"xyz")), at(1));
    assert!(!flushing);
    assert_eq!(link.tx_step(), TxStep::Ready);
    assert_eq!(&link.take_msg().unwrap()[..], &[7, 0, 0, 0, 1]);
    assert!(link.take_msg().is_none());
    let TxReady::SendData(data) = link.on_ready(Ok(()), at(2)) else { panic!("data expected") };
    assert_eq!(&data[..], b"xyz");
    assert!(link.needs_flush());
    assert!(link.has_outstanding_ack());
    let TxReady::Event(LinkIntEvent::TxReady) = link.on_ready(Ok(()), at(3)) else { panic!("event expected") };
    assert_eq!(link.tx_step(), TxStep::Wait);
    assert_eq!(link.stats.current.total_sent, 8);
    link.mark_idle(at(3));
    assert_eq!(link.flush_deadline().due, Some((53_000_000, FlushReason::DataIdle)));
    link.start_flush(at(4));
    assert_eq!(link.tx_step(), TxStep::Flush);
    let LinkIntEvent::TxFlushed = link.on_flushed(Ok(())) else { panic!("event expected") };
    assert!(!link.needs_flush());
}

#[test]
fn urgent_messages_are_flushed() {
    for (msg, flushed) in [
        (LinkMsg::Ping, true),
        (LinkMsg::Goodbye, true),
        (LinkMsg::SendFinish { seq: SeqNum(0) }, true),
        (LinkMsg::Ack { received: SeqNum(0) }, false),
        (LinkMsg::SetBlock { blocked: true }, false),
    ] {
        assert_eq!(link(Cfg::default()).start_send_msg(msg, None, at(1)), flushed);
    }
    let mut cfg = Cfg::default();
    cfg.link.unflushed_limit = Some(8);
    let mut link = link(cfg);
    let data = Some(Bytes::from_static(b"abc"));
    assert!(link.start_send_msg(LinkMsg::Data { seq: SeqNum(0) }, data, at(1)));
}

#[test]
fn failed_sink_is_reported() {
    let mut link = link(Cfg::default());
    assert_eq!(link.check_tx_failed(), Ok(()));
    link.report_ready(at(1));
    let TxReady::Event(LinkIntEvent::TxError(err)) = link.on_ready(Err(LinkError::Closed), at(1)) else {
        panic!("error expected")
    };
    assert_eq!(err, LinkError::Closed);
    assert_eq!(link.check_tx_failed(), Err(LinkError::Failed));
    assert_eq!(link.pending_error(), Some(LinkError::Failed));
    link.on_msg_refused(LinkError::Io("gone".to_string()));
    assert_eq!(link.pending_error(), Some(LinkError::Io("gone".to_string())));
    assert_eq!(link.start_send_and_flush(at(2)), Err(LinkError::Failed));
}

#[test]
fn data_message_waits_for_its_data() {
    let mut link = link(Cfg::default());
    let msg = LinkMsg::Data { seq: SeqNum(4) }.encode();
    assert!(link.on_received(RxItem::Packet(msg)).is_none());
    let Some(LinkIntEvent::Rx { msg, data }) = link.on_received(RxItem::Packet(Bytes::from_static(b"payload")))
    else {
        panic!("message expected")
    };
    assert_eq!(msg, LinkMsg::Data { seq: SeqNum(4) });
    assert_eq!(data, Some(Bytes::from_static(b"payload")));
    assert_eq!(link.stats.current.total_recved, 12);
    let Some(LinkIntEvent::RxError(LinkError::Closed)) = link.on_received(RxItem::End) else {
        panic!("error expected")
    };
}

#[test]
fn test_data_is_split() {
    let request = TestRequest { packet_size: 100, data_limit: 250 };
    assert_eq!(LinkInt::next_test_msg(&request, 0), Some(LinkMsg::TestData { size: 100 }));
    assert_eq!(LinkInt::next_test_msg(&request, 200), Some(LinkMsg::TestData { size: 50 }));
    assert_eq!(LinkInt::next_test_msg(&request, 250), None);
}

#[test]
fn deadline_is_the_earliest_required() {
    let mut deadline = Deadline::new();
    assert_eq!(deadline.due, None);
    deadline.require(FlushReason::DataInterval, 20);
    deadline.require(FlushReason::AckInterval, 30);
    assert_eq!(deadline.due, Some((20, FlushReason::DataInterval)));
    deadline.require(FlushReason::DataIdle, 10);
    assert_eq!(deadline.due, Some((10, FlushReason::DataIdle)));
}

#[test]
fn termination_is_exchanged() {
    let terminate = || LinkIntEvent::Rx { msg: LinkMsg::Terminate, data: None };
    // The message is sent when the link is ready and then a reply is awaited.
    let mut initiator = LinkTermination::new(true);
    assert!(!initiator.on_event(&LinkIntEvent::TxFlushed));
    assert!(initiator.on_event(&LinkIntEvent::TxReady));
    assert!(!initiator.on_event(&terminate()));
    // The reply needs no further message.
    let mut replier = LinkTermination::new(false);
    assert!(replier.on_event(&LinkIntEvent::TxReady));
    assert!(!replier.on_event(&LinkIntEvent::TxReady));
}

#[test]
fn statistics_are_published_per_interval() {
    let intervals = vec![Duration::from_millis(100), Duration::from_secs(1)];
    let mut stats = LinkStatistican::new(&intervals, Duration::from_millis(5), at(0));
    stats.record(30, 4);
    stats.record(1, 1);
    assert!(!stats.publish(at(100)));
    assert!(stats.publish(at(101)));
    assert_eq!(stats.current.time_stats[0].sent, 31);
    assert_eq!(stats.current.time_stats[0].recved, 5);
    assert!(stats.current.time_stats[0].busy);
    assert_eq!(stats.current.time_stats[1].sent, 0);
    assert_eq!(stats.running_stats[0].start, at(101));
    assert_eq!(stats.running_stats[1].sent, 31);
    stats.mark_idle();
    stats.record_hang();
    assert!(stats.publish(at(300)));
    assert!(!stats.current.time_stats[0].busy);
    assert_eq!((stats.current.total_sent, stats.current.total_recved, stats.current.hangs), (31, 5, 1));
}

#[test]
fn durations_are_measured() {
    assert_eq!(at(5).elapsed(at(8)), Duration::from_millis(3));
    assert_eq!(at(8).elapsed(at(5)), Duration::from_millis(0));
    assert_eq!(at(8).after(Duration::from_secs(2)), 2_008_000_000);
}

#[test]
fn javascript_time_has_milliseconds() {
    let start = exec_time::Instant::since_start(1005, 1000);
    assert_eq!(start, exec_time::Instant(5));
    assert_eq!(start + Duration { nanos: 2_999_999 }, exec_time::Instant(7));
    assert_eq!(exec_time::Instant(9) - start, Duration::from_millis(4));
    assert_eq!(start - exec_time::Instant(9), Duration::from_millis(0));
    assert_eq!(start.elapsed(exec_time::Instant(6)), Duration::from_millis(1));
    assert_eq!(exec_time::Instant(u64::MAX).checked_add(Duration::from_millis(1)), None);
    assert_eq!(start.checked_add(Duration::from_millis(1)), Some(exec_time::Instant(6)));
    assert_eq!(exec_time::sleep_duration(exec_time::Instant(9), start), Duration::from_millis(4));
    assert_eq!(exec_time::sleep_duration(start, exec_time::Instant(9)), Duration::from_millis(0));
    assert_eq!(exec_time::timeout_millis(Duration::from_secs(2)), Some(2000));
    assert_eq!(exec_time::timeout_millis(Duration::from_secs(3_000_000)), None);
    assert_eq!(Handle::current(), Handle);
}
