//! Limits, tests and refusal of links.

use std::sync::Arc;

use aggligator::agg::events::{NewLink, TaskEvent};
use aggligator::agg::link_int::{LinkInt, LinkIntEvent, LinkTest, TxReady};
use aggligator::agg::state::{SendReq, Task};
use aggligator::cfg::{Cfg, ExchangedCfg, LinkCfg};
use aggligator::control::{Direction, DisconnectReason, NotWorkingReason};
use aggligator::error::LinkError;
use aggligator::id::ConnId;
use aggligator::msg::{LinkMsg, RefusedReason};
use aggligator::seq::SeqNum;
use aggligator::time::{Duration, Instant};
use bytes::Bytes;

fn at(millis: u64) -> Instant {
    Instant { nanos: millis * 1_000_000 }
}

fn new_link(cfg: &Arc<Cfg>, link_cfg: Option<LinkCfg>, direction: Direction, ping: u64) -> LinkInt {
    LinkInt::new(
        ConnId(1),
        cfg.clone(),
        ExchangedCfg { recv_buffer: 100_000 },
        link_cfg,
        direction,
        Duration::from_millis(ping),
        Vec::new(),
        at(0),
    )
}

fn untested(max_ping: Option<u64>) -> LinkCfg {
    LinkCfg { test_data_limit: 0, max_ping: max_ping.map(Duration::from_millis), ..Cfg::default().link }
}

fn new_task(cfg: &Arc<Cfg>, links: Vec<LinkInt>) -> Task {
    let mut task = Task::new(cfg.clone(), None, ConnId(1), Direction::Outgoing, at(0));
    for link in links {
        assert!(matches!(task.handle_new_link(link, true, at(0)), NewLink::Added(_)));
    }
    task
}

/// Sends a packet over the only link and offers another one.
fn send_and_offer(task: &mut Task, size: usize) {
    let round = task.begin_round(at(1)).unwrap();
    task.write_step(&round.flags);
    task.offer_request(SendReq::Send(Bytes::from(vec![0; size])));
    for _ in 0..3 {
        let _ = task.take_msg(0);
        match task.poll_ready(0, Ok(()), at(1)) {
            TxReady::SendData(data) => assert_eq!(data.len(), size),
            TxReady::Event(event) => {
                assert!(task.handle_event(TaskEvent::LinkEvent { id: 0, event }, &round.flags, at(1)).is_none());
            }
        }
    }
    let round = task.begin_round(at(2)).unwrap();
    task.write_step(&round.flags);
    task.offer_request(SendReq::Send(Bytes::from(vec![0; size])));
}

fn limit_after_increase(unacked_limit: usize) -> u64 {
    let link = LinkCfg {
        unacked_init: 1000,
        unacked_limit,
        unacked_increase_single_link: 200,
        ..untested(None)
    };
    let cfg = Arc::new(Cfg { link, link_max_ping_spread: None, ..Cfg::default() });
    let mut task = new_task(&cfg, vec![new_link(&cfg, None, Direction::Outgoing, 10)]);
    send_and_offer(&mut task, 1200);
    let link = task.links[0].as_ref().unwrap();
    assert_eq!(link.unacked.txed_unacked_data, 1200);
    assert_eq!(link.unacked.txed_unacked_data_limit, 1000);
    task.adjust_link_tx_limits(at(2));
    task.links[0].as_ref().unwrap().unacked.txed_unacked_data_limit
}

#[test]
fn raised_limit_stays_within_the_maximum() {
    assert_eq!(limit_after_increase(5000), 2000);
    assert_eq!(limit_after_increase(1500), 1500);
    assert_eq!(limit_after_increase(1000), 1000);
}

fn unconfirmed_reasons(pings: [u64; 2]) -> Vec<Option<NotWorkingReason>> {
    let cfg = Arc::new(Cfg { link_max_ping_spread: None, ..Cfg::default() });
    let limited = new_link(&cfg, Some(untested(Some(100))), Direction::Outgoing, pings[0]);
    let unlimited = new_link(&cfg, Some(untested(None)), Direction::Outgoing, pings[1]);
    let mut task = new_task(&cfg, vec![limited, unlimited]);
    task.check_link_limits(at(5));
    task.links.iter().map(|link| link.as_ref().unwrap().status.unconfirmed.map(|(_, reason)| reason)).collect()
}

#[test]
fn slow_link_is_unconfirmed_beside_a_faster_one() {
    assert_eq!(unconfirmed_reasons([500, 10]), vec![Some(NotWorkingReason::MaxPingExceeded), None]);
    assert_eq!(unconfirmed_reasons([500, 200]), vec![None, None]);
    assert_eq!(unconfirmed_reasons([90, 10]), vec![None, None]);
}

#[test]
fn failed_test_is_reported_and_retried() {
    let cfg = Arc::new(Cfg::default());
    let mut link = new_link(&cfg, None, Direction::Outgoing, 500);
    link.status.unconfirmed = Some((at(1), NotWorkingReason::New));
    assert_eq!(link.testing_step(1_000_000, at(2)), (None, false));
    assert_eq!(link.status.test, LinkTest::InProgress);
    link.ping.send_ping = false;
    let retest = (at(3).nanos + cfg.link.retest_interval.nanos) as u128;
    assert_eq!(link.testing_step(1_000_000, at(3)), (Some(retest), false));
    assert_eq!(link.status.unconfirmed, Some((at(1), NotWorkingReason::TestFailed)));
    assert_eq!(link.status.test, LinkTest::Failed(at(3)));
}

/// Completes the test of a link with a maximum ping of 100 ms beside a working link.
fn test_beside(ping: u64, other_ping: u64, other_max_ping: Option<u64>) -> LinkTest {
    let cfg = Arc::new(Cfg { link_max_ping_spread: None, ..Cfg::default() });
    let limited = new_link(&cfg, Some(untested(Some(100))), Direction::Outgoing, ping);
    let other = new_link(&cfg, Some(untested(other_max_ping)), Direction::Outgoing, other_ping);
    let mut task = new_task(&cfg, vec![limited, other]);
    let link = task.links[0].as_mut().unwrap();
    link.status.unconfirmed = Some((at(1), NotWorkingReason::MaxPingExceeded));
    link.status.test = LinkTest::InProgress;
    link.ping.send_ping = false;
    task.link_testing_step(0, at(3));
    task.links[0].as_ref().unwrap().status.test
}

#[test]
fn slow_link_passes_test_only_beside_slower_ones() {
    assert_eq!(test_beside(500, 10, None), LinkTest::Failed(at(3)));
    assert_eq!(test_beside(500, 10, Some(100)), LinkTest::Failed(at(3)));
    assert_eq!(test_beside(500, 200, None), LinkTest::Inactive);
    assert_eq!(test_beside(500, 200, Some(300)), LinkTest::Inactive);
    assert_eq!(test_beside(90, 10, None), LinkTest::Inactive);
}

#[test]
fn new_link_needs_no_test_without_test_data() {
    let cfg = Arc::new(Cfg::default());
    let mut link = new_link(&cfg, Some(untested(None)), Direction::Outgoing, 500);
    link.status.unconfirmed = Some((at(1), NotWorkingReason::New));
    assert_eq!(link.testing_step(1_000_000, at(2)), (None, true));
    assert_eq!(link.status.unconfirmed, None);
    assert!(!link.ping.send_ping);
    assert_eq!(link.ping.roundtrip, Duration::from_millis(500));
}

#[test]
fn refused_message_counts_as_not_sent() {
    let cfg = Arc::new(Cfg::default());
    let mut link = new_link(&cfg, None, Direction::Outgoing, 10);
    assert!(link.start_send_msg(LinkMsg::Ping, None, at(1)));
    assert_eq!(link.stats.current.total_sent, 1);
    assert!(link.flush.tx_flushing);
    assert_eq!(link.take_msg().unwrap(), LinkMsg::Ping.encode());
    link.on_msg_refused(LinkError::Closed);
    assert_eq!(link.stats.current.total_sent, 0);
    assert!(!link.flush.tx_flushing);
    assert_eq!(link.flush.tx_last_msg, None);
    assert_eq!(link.pending_error(), Some(LinkError::Closed));
    assert_eq!(link.pending_error(), Some(LinkError::Failed));

    let mut link = new_link(&cfg, None, Direction::Outgoing, 10);
    let data = Some(Bytes::from_static(b"abc"));
    link.start_send_msg(LinkMsg::Data { seq: SeqNum(3) }, data, at(1));
    assert_eq!(link.unacked.txed_unacked, Some(SeqNum(3)));
    let _ = link.take_msg();
    link.on_msg_refused(LinkError::Closed);
    assert_eq!(link.unacked.txed_unacked, None);
    assert_eq!(link.flush.txed_unflushed, 0);
    assert!(link.tx.tx_data.is_none());
}

#[test]
fn refused_link_is_told_why() {
    let cfg = Arc::new(Cfg::default());
    let mut task = new_task(&cfg, Vec::new());
    let incoming = new_link(&cfg, None, Direction::Incoming, 10);
    let NewLink::Refused { reply, reason, .. } = task.handle_new_link(incoming, false, at(1)) else {
        panic!("link was not refused")
    };
    assert!(matches!(reply, Some(LinkMsg::Refused { reason: RefusedReason::LinkRefused })));
    assert_eq!(reason, DisconnectReason::LinkFilter);
    let outgoing = new_link(&cfg, None, Direction::Outgoing, 10);
    let NewLink::Refused { reply, reason, .. } = task.handle_new_link(outgoing, false, at(1)) else {
        panic!("link was not refused")
    };
    assert!(reply.is_none());
    assert_eq!(reason, DisconnectReason::LinkFilter);
    assert!(task.links.is_empty());
}

#[test]
fn changed_configuration_confirms_new_link() {
    let cfg = Arc::new(Cfg::default());
    let mut task = new_task(&cfg, vec![new_link(&cfg, None, Direction::Outgoing, 10)]);
    let round = task.begin_round(at(1)).unwrap();
    let event = LinkIntEvent::LinkCfgChanged(Some(untested(None)));
    assert!(task.handle_event(TaskEvent::LinkEvent { id: 0, event }, &round.flags, at(1)).is_none());
    let TxReady::Event(event) = task.poll_ready(0, Ok(()), at(1)) else { panic!("event expected") };
    assert!(task.handle_event(TaskEvent::LinkEvent { id: 0, event }, &round.flags, at(1)).is_none());
    assert!(task.begin_round(at(2)).is_ok());
    let link = task.links[0].as_ref().unwrap();
    assert_eq!(link.status.unconfirmed, None);
    assert_eq!(link.status.test, LinkTest::Inactive);
}
