//! Two endpoints exchanging data over simulated links.

use std::collections::VecDeque;
use std::sync::Arc;

use aggligator::agg::events::{NewLink, TaskEvent};
use aggligator::agg::link_int::{LinkInt, LinkIntEvent, RxItem, TxReady, TxStep};
use aggligator::agg::round::{Round, WriteStep};
use aggligator::agg::state::{RemovedLink, SendReq, Task};
use aggligator::agg::termination::{TaskError, Termination};
use aggligator::alc::{RecvError, SendError};
use aggligator::cfg::{Cfg, ExchangedCfg, LinkPing};
use aggligator::control::{Direction, DisconnectReason};
use aggligator::error::{ErrorKind, LinkError};
use aggligator::id::{ConnId, LinkId};
use aggligator::time::{Duration, Instant};
use bytes::Bytes;

/// What is on its way from one endpoint to the other over one link.
#[derive(Default)]
struct Wire {
    packets: VecDeque<(u64, Bytes)>,
    unflushed: VecDeque<(u64, Bytes)>,
    latency: u64,
    broken: bool,
    stalled: bool,
    ended: bool,
}

/// One endpoint of a connection.
struct Endpoint {
    task: Task,
    ids: Vec<Option<usize>>,
    send: VecDeque<SendReq>,
    sender_dropped: bool,
    receiver_dropped: bool,
    receiver_closed: bool,
    terminate: bool,
    received: Vec<Bytes>,
    consuming: bool,
    removed: Vec<RemovedLink>,
    termination: Option<Termination>,
    connected: bool,
    flushed: usize,
}

impl Endpoint {
    fn new(cfg: &Arc<Cfg>, direction: Direction) -> Self {
        Self {
            task: Task::new(cfg.clone(), None, ConnId(1), direction, Instant { nanos: 0 }),
            ids: Vec::new(),
            send: VecDeque::new(),
            sender_dropped: false,
            receiver_dropped: false,
            receiver_closed: false,
            terminate: false,
            received: Vec::new(),
            consuming: true,
            removed: Vec::new(),
            termination: None,
            connected: false,
            flushed: 0,
        }
    }

    /// Adds a link with the specified number.
    fn add_link(&mut self, no: usize, cfg: &Arc<Cfg>, remote: &Arc<Cfg>, direction: Direction, now: Instant) -> LinkId {
        let link = LinkInt::new(
            ConnId(1),
            cfg.clone(),
            ExchangedCfg::from(&**remote),
            None,
            direction,
            Duration::from_millis(1),
            Vec::new(),
            now,
        );
        let link_id = link.info.link_id;
        let NewLink::Added(id) = self.task.handle_new_link(link, true, now) else { panic!("link was not added") };
        while self.ids.len() <= no {
            self.ids.push(None);
        }
        self.ids[no] = Some(id);
        link_id
    }

    fn handle(&mut self, event: TaskEvent, round: &Round, now: Instant) {
        if let Some(termination) = self.task.handle_event(event, &round.flags, now) {
            self.task.end(&termination);
            self.termination = Some(termination);
        }
        for removed in self.task.take_removed() {
            for id in &mut self.ids {
                if *id == Some(removed.id) {
                    *id = None;
                }
            }
            self.removed.push(removed);
        }
    }

    /// Determines the next event, performing the pending operations on the links.
    fn next_event(&mut self, tx: &mut [Wire], rx: &mut [Wire], round: &Round, now: Instant) -> Option<TaskEvent> {
        if self.terminate {
            return Some(TaskEvent::Terminate);
        }
        for no in 0..self.ids.len() {
            let Some(id) = self.ids[no] else { continue };
            if let Some(event) = self.poll_link(id, &mut tx[no], &mut rx[no], now) {
                return Some(TaskEvent::LinkEvent { id, event });
            }
        }
        if let Some(event) = self.write_event(round) {
            return Some(event);
        }
        if let Some((time, event)) = self.task.next_timeout(&round.timeouts, now) {
            if now.nanos as u128 >= time {
                return Some(event);
            }
        }
        if round.flags.resending && round.flags.resendable.is_some() {
            return Some(TaskEvent::Resend);
        }
        if self.receiver_dropped && self.task.chan.read_open {
            return Some(TaskEvent::ReadDropped);
        }
        if self.receiver_closed && self.task.chan.read_closed_open {
            return Some(TaskEvent::ReadClosed);
        }
        None
    }

    fn write_event(&mut self, round: &Round) -> Option<TaskEvent> {
        match self.task.write_step(&round.flags) {
            WriteStep::Wait => None,
            WriteStep::SendConsumed => Some(TaskEvent::SendConsumed),
            WriteStep::Send => Some(TaskEvent::WriteRx),
            WriteStep::Flush => Some(TaskEvent::Flush),
            WriteStep::Receive => match self.send.pop_front() {
                Some(request) => {
                    self.task.offer_request(request);
                    self.write_event(round)
                }
                None if self.sender_dropped => Some(TaskEvent::WriteEnd),
                None => None,
            },
        }
    }

    fn poll_link(&mut self, id: usize, tx: &mut Wire, rx: &mut Wire, now: Instant) -> Option<LinkIntEvent> {
        if let Some(err) = self.task.poll_error(id) {
            return Some(LinkIntEvent::TxError(err));
        }
        let arrives = now.nanos + tx.latency;
        if let Some(msg) = self.task.take_msg(id) {
            tx.unflushed.push_back((arrives, msg));
        }
        if let Some(test) = self.task.take_test(id) {
            let mut sent = 0;
            while let Some(msg) = LinkInt::next_test_msg(&test, sent) {
                tx.unflushed.push_back((arrives, msg.encode()));
                sent += test.packet_size;
            }
        }
        if tx.broken {
            return Some(LinkIntEvent::TxError(LinkError::Closed));
        }
        match self.task.links[id].as_ref().unwrap().tx_step() {
            TxStep::Wait => (),
            _ if tx.stalled => self.task.poll_pending(id, true),
            TxStep::Flush => {
                tx.packets.append(&mut tx.unflushed);
                return Some(self.task.poll_flushed(id, Ok(())));
            }
            TxStep::Ready => {
                self.task.poll_pending(id, false);
                match self.task.poll_ready(id, Ok(()), now) {
                    TxReady::SendData(data) => tx.unflushed.push_back((arrives, data)),
                    TxReady::Event(event) => {
                        if self.task.write_rx.as_ref().is_some_and(|rx| rx.needs_message()) {
                            if let Some(request) = self.send.pop_front() {
                                self.task.offer_request(request);
                            }
                        }
                        return Some(event);
                    }
                }
            }
        }
        while rx.packets.front().is_some_and(|(arrives, _)| *arrives <= now.nanos) {
            let (_, packet) = rx.packets.pop_front().unwrap();
            if let Some(event) = self.task.poll_received(id, RxItem::Packet(packet)) {
                return Some(event);
            }
        }
        if rx.ended {
            return self.task.poll_received(id, RxItem::End);
        }
        None
    }

    /// Handles all events that occur at the specified time.
    fn run(&mut self, tx: &mut [Wire], rx: &mut [Wire], now: Instant) {
        for _ in 0..100_000 {
            if self.termination.is_some() {
                return;
            }
            self.task.send_stats(now);
            let round = match self.task.begin_round(now) {
                Ok(round) => round,
                Err(termination) => {
                    self.task.end(&termination);
                    self.termination = Some(termination);
                    return;
                }
            };
            assert!(self.task.tx.txed_unacked <= self.task.info.cfg.send_buffer as u64);
            self.connected |= round.connected.is_some();
            self.flushed += round.flushed as usize;
            if self.consuming && !self.task.rx.rxed_reliable_consumable.is_empty() {
                if let Some(data) = self.task.consume_received() {
                    self.received.push(data);
                }
                continue;
            }
            match self.next_event(tx, rx, &round, now) {
                Some(event) => self.handle(event, &round, now),
                None => return,
            }
        }
        panic!("endpoint does not come to rest");
    }
}

/// Two connected endpoints.
struct Net {
    cfg: Arc<Cfg>,
    client: Endpoint,
    server: Endpoint,
    up: Vec<Wire>,
    down: Vec<Wire>,
    now: Instant,
}

impl Net {
    fn new(cfg: Cfg, links: usize) -> Self {
        assert!(cfg.is_valid());
        let cfg = Arc::new(cfg);
        let mut net = Net {
            client: Endpoint::new(&cfg, Direction::Outgoing),
            server: Endpoint::new(&cfg, Direction::Incoming),
            cfg,
            up: Vec::new(),
            down: Vec::new(),
            now: Instant { nanos: 0 },
        };
        for _ in 0..links {
            net.add_link();
        }
        net
    }

    fn add_link(&mut self) -> usize {
        let no = self.up.len();
        let cfg = self.cfg.clone();
        self.up.push(Wire { latency: 1_000_000, ..Wire::default() });
        self.down.push(Wire { latency: 1_000_000, ..Wire::default() });
        self.client.add_link(no, &cfg, &cfg, Direction::Outgoing, self.now);
        self.server.add_link(no, &cfg, &cfg, Direction::Outgoing, self.now);
        no
    }

    fn run_millis(&mut self, millis: u64) {
        for _ in 0..millis {
            self.now = Instant { nanos: self.now.nanos + 1_000_000 };
            self.client.run(&mut self.up, &mut self.down, self.now);
            self.server.run(&mut self.down, &mut self.up, self.now);
            for wire in self.up.iter_mut().filter(|wire| wire.packets.is_empty()) {
                wire.ended = self.client.termination == Some(Termination::Closed);
            }
            for wire in self.down.iter_mut().filter(|wire| wire.packets.is_empty()) {
                wire.ended = self.server.termination == Some(Termination::Closed);
            }
        }
    }
}

fn packet(n: usize, len: usize) -> Bytes {
    Bytes::from((0..len).map(|i| (n.wrapping_mul(31).wrapping_add(i) % 251) as u8).collect::<Vec<u8>>())
}

fn queue(endpoint: &mut Endpoint, count: usize, len: usize) -> Vec<Bytes> {
    let packets: Vec<Bytes> = (0..count).map(|n| packet(n, len)).collect();
    for data in &packets {
        endpoint.send.push_back(SendReq::Send(data.clone()));
    }
    packets
}

#[test]
fn data_arrives_in_order_over_one_link() {
    let mut net = Net::new(Cfg::default(), 1);
    let sent = queue(&mut net.client, 200, 1000);
    net.run_millis(3000);
    assert!(net.client.connected && net.server.connected);
    assert_eq!(net.server.received, sent);
    assert!(net.client.received.is_empty());
    assert!(net.client.task.tx.txed_packets.is_empty());
    assert_eq!(net.client.task.tx.txed_unacked, 0);
}

#[test]
fn data_arrives_in_order_over_many_links() {
    let mut net = Net::new(Cfg::default(), 5);
    for (no, wire) in net.up.iter_mut().enumerate() {
        wire.latency = 1_000_000 * (1 + no as u64);
    }
    let sent = queue(&mut net.client, 500, 3000);
    let sent_back = queue(&mut net.server, 300, 700);
    net.run_millis(6000);
    assert_eq!(net.server.received, sent);
    assert_eq!(net.client.received, sent_back);
}

#[test]
fn several_links_are_used() {
    let mut net = Net::new(Cfg::default(), 2);
    let sent = queue(&mut net.client, 400, 5000);
    net.run_millis(6000);
    assert_eq!(net.server.received, sent);
    for link in net.client.task.links.iter().flatten() {
        assert!(link.stats.current.total_sent > 100_000, "link was not used for data");
    }
}

#[test]
fn failing_link_loses_no_data() {
    let mut net = Net::new(Cfg::default(), 3);
    let sent = queue(&mut net.client, 1000, 2000);
    net.run_millis(40);
    net.up[1].broken = true;
    net.down[1].broken = true;
    net.up[1].packets.clear();
    net.down[1].packets.clear();
    net.run_millis(8000);
    assert_eq!(net.server.received, sent);
    assert_eq!(net.client.removed.len(), 1);
    assert_eq!(net.client.removed[0].reason, DisconnectReason::IoError(LinkError::Closed));
}

#[test]
fn stalled_link_is_replaced_by_others() {
    let mut net = Net::new(Cfg::default(), 2);
    let sent = queue(&mut net.client, 600, 2000);
    net.run_millis(30);
    net.up[0].stalled = true;
    net.down[0].stalled = true;
    net.run_millis(30_000);
    assert_eq!(net.server.received, sent);
}

#[test]
fn links_can_be_added_and_removed_while_sending() {
    let mut net = Net::new(Cfg::default(), 1);
    let sent = queue(&mut net.client, 800, 1000);
    net.run_millis(20);
    net.add_link();
    net.run_millis(300);
    // Request disconnection of the first link.
    let id = net.client.ids[0].unwrap();
    let round = net.client.task.begin_round(net.now).unwrap();
    net.client.handle(TaskEvent::LinkEvent { id, event: LinkIntEvent::Disconnect }, &round, net.now);
    net.run_millis(5000);
    assert_eq!(net.server.received, sent);
    assert_eq!(net.client.removed.len(), 1);
    assert_eq!(net.client.removed[0].reason, DisconnectReason::LocallyRequested);
    assert_eq!(net.server.removed.len(), 1);
    assert_eq!(net.server.removed[0].reason, DisconnectReason::RemotelyRequested);
}

#[test]
fn slow_receiver_limits_the_sender() {
    let cfg = Cfg { recv_buffer: 10_000, send_buffer: 50_000, ..Cfg::default() };
    let mut net = Net::new(cfg, 2);
    net.server.consuming = false;
    let sent = queue(&mut net.client, 100, 1000);
    net.run_millis(2000);
    assert!(net.server.received.is_empty());
    assert!(net.server.task.rx.rxed_reliable_size <= 10_000);
    assert!(net.client.task.tx.txed_unconsumed <= 10_000);
    net.server.consuming = true;
    net.run_millis(4000);
    assert_eq!(net.server.received, sent);
}

#[test]
fn connection_closes_gracefully() {
    let mut net = Net::new(Cfg::default(), 2);
    let sent = queue(&mut net.client, 50, 1000);
    net.client.sender_dropped = true;
    net.server.sender_dropped = true;
    net.run_millis(3000);
    assert_eq!(net.server.received, sent);
    assert_eq!(net.client.termination, Some(Termination::Closed));
    assert_eq!(net.server.termination, Some(Termination::Closed));
    assert_eq!(net.client.termination.unwrap().result(), Ok(()));
    assert_eq!(net.server.task.errors.read_error, None);
    assert_eq!(net.client.task.errors.read_error, None);
}

#[test]
fn dropped_receiver_is_reported_to_the_sender() {
    let mut net = Net::new(Cfg::default(), 1);
    queue(&mut net.client, 5, 100);
    net.run_millis(500);
    net.server.receiver_dropped = true;
    queue(&mut net.client, 5, 100);
    net.run_millis(1000);
    assert_eq!(net.client.task.errors.write_error.kind(), ErrorKind::ConnectionReset);
    assert!(net.client.task.write_rx.is_none());
}

#[test]
fn closed_receiver_still_gets_data() {
    let mut net = Net::new(Cfg::default(), 1);
    net.run_millis(500);
    assert!(net.client.task.accepts_requests());
    let sent = queue(&mut net.client, 100, 100);
    net.server.receiver_closed = true;
    net.run_millis(500);
    assert!(!net.client.task.accepts_requests());
    assert_eq!(net.client.task.errors.write_error, SendError::Closed);
    assert_eq!(net.server.received, sent);
}

#[test]
fn flush_request_completes() {
    let mut net = Net::new(Cfg::default(), 2);
    net.run_millis(500);
    queue(&mut net.client, 3, 100);
    net.client.send.push_back(SendReq::Flush);
    net.run_millis(500);
    assert_eq!(net.client.flushed, 1);
}

#[test]
fn ignored_flush_request_completes_at_once() {
    let mut net = Net::new(Cfg { ignore_flush: true, ..Cfg::default() }, 2);
    net.run_millis(500);
    net.up[0].stalled = true;
    net.up[1].stalled = true;
    net.client.send.push_back(SendReq::Flush);
    net.run_millis(2);
    assert_eq!(net.client.flushed, 1);
    assert!(net.client.task.unflushed_links.is_empty());
}

#[test]
fn lost_links_end_the_connection() {
    let mut net = Net::new(Cfg { no_link_timeout: Duration::from_secs(2), ..Cfg::default() }, 1);
    net.run_millis(500);
    net.up[0].broken = true;
    net.down[0].broken = true;
    net.run_millis(1000);
    assert_eq!(net.client.termination, None);
    net.run_millis(2000);
    assert_eq!(net.client.termination, Some(Termination::NoLinksTimeout));
    assert_eq!(net.client.task.errors.read_error, Some(RecvError::AllLinksFailed));
    assert_eq!(net.client.task.errors.write_error, SendError::AllLinksFailed);
    assert_eq!(net.client.termination.unwrap().result(), Err(TaskError::NoLinksTimeout));
}

#[test]
fn no_more_links_end_the_connection() {
    let mut net = Net::new(Cfg::default(), 1);
    net.run_millis(500);
    let round = net.client.task.begin_round(net.now).unwrap();
    net.client.handle(TaskEvent::NoNewLinks, &round, net.now);
    net.run_millis(10);
    assert_eq!(net.client.termination, None);
    net.up[0].broken = true;
    net.run_millis(10);
    assert_eq!(net.client.termination, Some(Termination::NoMoreLinks));
}

#[test]
fn links_are_pinged_periodically() {
    let mut cfg = Cfg::default();
    cfg.link.ping = LinkPing::Periodic(Duration::from_millis(200));
    let mut net = Net::new(cfg, 1);
    net.up[0].latency = 7_000_000;
    net.down[0].latency = 5_000_000;
    net.run_millis(1500);
    let link = net.client.task.links[0].as_ref().unwrap();
    assert!(link.ping.last_ping.is_some());
    let roundtrip = link.ping.roundtrip.nanos;
    assert!((12_000_000..=16_000_000).contains(&roundtrip), "unexpected roundtrip {roundtrip}");
}

#[test]
fn unanswered_ping_removes_the_link() {
    let mut cfg = Cfg::default();
    cfg.link.ping = LinkPing::Periodic(Duration::from_millis(200));
    cfg.link.ping_timeout = Duration::from_millis(300);
    let mut net = Net::new(cfg, 2);
    net.run_millis(500);
    // Nothing arrives from the server anymore over the first link.
    net.down[0].stalled = true;
    net.run_millis(1000);
    assert_eq!(net.client.removed.len(), 1);
    assert_eq!(net.client.removed[0].reason, DisconnectReason::PingTimeout);
}

#[test]
fn blocked_link_is_not_used() {
    let mut cfg = Cfg::default();
    cfg.link.ping = LinkPing::Periodic(Duration::from_millis(100));
    let mut net = Net::new(cfg, 2);
    net.run_millis(500);
    let id = net.client.ids[0].unwrap();
    let round = net.client.task.begin_round(net.now).unwrap();
    net.client.handle(
        TaskEvent::LinkEvent { id, event: LinkIntEvent::BlockedChanged(true) },
        &round,
        net.now,
    );
    net.run_millis(200);
    let server_id = net.server.ids[0].unwrap();
    assert!(net.server.task.links[server_id].as_ref().unwrap().status.remotely_blocked);
    let before = net.client.task.links[id].as_ref().unwrap().stats.current.total_sent;
    let sent = queue(&mut net.client, 100, 1000);
    let sent_back = queue(&mut net.server, 100, 1000);
    net.run_millis(2000);
    assert_eq!(net.server.received, sent);
    assert_eq!(net.client.received, sent_back);
    let after = net.client.task.links[id].as_ref().unwrap().stats.current.total_sent;
    assert!(after - before < 1000, "data was sent over blocked link");
}

#[test]
fn local_termination_ends_both_endpoints() {
    let mut net = Net::new(Cfg::default(), 1);
    net.run_millis(500);
    net.client.terminate = true;
    net.run_millis(1);
    assert_eq!(net.client.termination, Some(Termination::Local));
    // The owner of the links then exchanges termination messages.
    let msg = aggligator::msg::LinkMsg::Terminate;
    net.up[0].packets.push_back((0, msg.encode()));
    net.run_millis(5);
    assert_eq!(net.server.termination, Some(Termination::Remote));
    assert_eq!(net.server.task.errors.read_error, Some(RecvError::TaskTerminated));
}

#[test]
fn malformed_message_removes_the_link() {
    let mut net = Net::new(Cfg::default(), 2);
    net.run_millis(500);
    net.up[0].packets.push_back((0, Bytes::from_static(&[99])));
    net.run_millis(5);
    assert_eq!(net.server.removed.len(), 1);
    let text = net.server.removed[0].reason.text();
    assert_eq!(text, "IO error: invalid message id 99");
    assert_eq!(net.server.termination, None);
}

#[test]
fn protocol_violation_ends_the_connection() {
    let mut net = Net::new(Cfg::default(), 1);
    net.run_millis(500);
    let msg = aggligator::msg::LinkMsg::Accepted;
    net.up[0].packets.push_back((0, msg.encode()));
    net.run_millis(5);
    let Some(Termination::Protocol { error, .. }) = net.server.termination else { panic!("connection still exists") };
    assert_eq!(error, aggligator::error::ProtocolError::UnexpectedMessage);
    assert_eq!(net.server.task.errors.read_error, Some(RecvError::ProtocolError));
    assert_eq!(net.server.task.errors.write_error, SendError::ProtocolError);
}

#[test]
fn untested_links_work_at_once() {
    let mut cfg = Cfg::default();
    cfg.link.test_data_limit = 0;
    let mut net = Net::new(cfg, 1);
    let sent = queue(&mut net.client, 10, 100);
    net.run_millis(100);
    assert_eq!(net.server.received, sent);
    // Without test data only the data and a few control messages have been sent.
    let total = net.client.task.links[0].as_ref().unwrap().stats.current.total_sent;
    assert!(total < 2000, "{total} bytes sent");
}

#[test]
fn first_timeout_is_waited_for() {
    let cfg = Arc::new(Cfg::default());
    let mut endpoint = Endpoint::new(&cfg, Direction::Outgoing);
    let now = Instant { nanos: 5 };
    let round = endpoint.task.begin_round(now).unwrap();
    let (time, event) = endpoint.task.next_timeout(&round.timeouts, now).unwrap();
    assert_eq!(time, 120_000_000_005);
    assert!(matches!(event, TaskEvent::NoLinksTimeout));

    endpoint.add_link(0, &cfg, &cfg, Direction::Outgoing, now);
    let round = endpoint.task.begin_round(now).unwrap();
    let (time, event) = endpoint.task.next_timeout(&round.timeouts, now).unwrap();
    assert_eq!(time, 20_000_000_005);
    assert!(matches!(event, TaskEvent::LinkUnconfirmedTimeout(0)));
}
