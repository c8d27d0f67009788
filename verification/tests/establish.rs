//! Establishing connections and links.

use aggligator::agg::termination::{FatalConnectError, SendTerminate, TaskError, Termination};
use aggligator::alc::{RecvError, SendError};
use aggligator::cfg::{Cfg, ExchangedCfg};
use aggligator::connect::{
    fatal_connect_error, refused_error, ConnectError, IncomingError, IncomingHandshake, ListenError,
    route_known, ListenPermit, ListenerSlot, OutgoingHandshake, Route, ServerInner,
};
use aggligator::control::{AddLinkError, Direction, DisconnectReason, NotWorkingReason};
use aggligator::error::{ErrorKind, Expected, LinkError, ProtocolError};
use aggligator::id::{ConnId, LinkId, ServerId};
use aggligator::io::codec::IntegrityError;
use aggligator::msg::{LinkMsg, MsgError, RefusedReason, UserDataTooLong};

fn client(remote_server_id: Option<ServerId>) -> OutgoingHandshake {
    OutgoingHandshake::start(ConnId(0x1234), None, remote_server_id, false, &Cfg::default())
}

#[test]
fn handshake_transfers_the_connection_identifier() {
    let cfg = Cfg { recv_buffer: 5000, ..Cfg::default() };
    let server = IncomingHandshake::start(ServerId(7), &cfg);
    let client = client(None);
    let welcome = LinkMsg::read(&server.welcome(vec![1, 2]).encode()).unwrap();
    let welcomed = client.on_welcome(welcome, vec![3]).unwrap();
    assert_eq!(welcomed.remote_server_id, ServerId(7));
    assert_eq!(welcomed.remote_cfg, ExchangedCfg { recv_buffer: 5000 });
    assert_eq!(welcomed.remote_user_data, vec![1, 2]);
    let connect = LinkMsg::read(&welcomed.connect.encode()).unwrap();
    let LinkMsg::Connect { connection_id, .. } = &connect else { panic!("wrong message") };
    assert_ne!(connection_id.0, 0x1234);
    let request = server.on_reply(connect).unwrap();
    assert_eq!(request.conn_id, ConnId(0x1234));
    assert_eq!(request.remote_user_data, vec![3]);
    assert_eq!(request.remote_server_id, None);
    assert!(!request.existing);
    assert_eq!(request.remote_cfg, ExchangedCfg::from(&Cfg::default()));
}

#[test]
fn other_server_is_detected() {
    let server = IncomingHandshake::start(ServerId(7), &Cfg::default());
    assert!(client(Some(ServerId(7))).on_welcome(server.welcome(Vec::new()), Vec::new()).is_ok());
    let err = client(Some(ServerId(8))).on_welcome(server.welcome(Vec::new()), Vec::new()).unwrap_err();
    assert_eq!(err, AddLinkError::ServerIdMismatch { expected: ServerId(8), present: ServerId(7) });
    assert_eq!(
        err.text(),
        "connected to server 0000000000000008 but link connects to server 0000000000000007"
    );
    assert!(!err.should_reconnect());
    assert_eq!(fatal_connect_error(&err, &Cfg::default(), true, true), Some(FatalConnectError::ServerIdMismatch));
    let tolerant = Cfg { disconnect_on_server_id_mismatch: false, ..Cfg::default() };
    assert_eq!(fatal_connect_error(&err, &tolerant, true, false), None);
    assert_eq!(fatal_connect_error(&AddLinkError::LinkRefused, &Cfg::default(), true, false), None);
}

#[test]
fn unexpected_handshake_messages_are_rejected() {
    let server = IncomingHandshake::start(ServerId(7), &Cfg::default());
    let err = server.on_reply(LinkMsg::Ping).unwrap_err();
    assert_eq!(err.text(), "IO error: expected Connect message");
    assert_eq!(err.kind(), Some(ErrorKind::InvalidData));
    let err = client(None).on_welcome(LinkMsg::Ping, Vec::new()).unwrap_err();
    assert_eq!(err.text(), "IO error: expected Welcome message");
    assert_eq!(err.kind(), Some(ErrorKind::InvalidData));
    let err = OutgoingHandshake::on_reply(&LinkMsg::Pong).unwrap_err();
    assert_eq!(err.text(), "IO error: expected Accepted or Refused message");
    assert_eq!(err, AddLinkError::Io(LinkError::Unexpected(Expected::Reply)));
    assert!(err.should_reconnect());
    assert_eq!(err.kind(), Some(ErrorKind::InvalidData));
}

#[test]
fn server_that_closed_the_connection_aborts_it() {
    let cfg = Cfg::default();
    let err = AddLinkError::ConnectionClosed;
    assert_eq!(fatal_connect_error(&err, &cfg, true, false), Some(FatalConnectError::Closed));
    assert_eq!(fatal_connect_error(&err, &cfg, true, true), None);
    assert_eq!(fatal_connect_error(&err, &cfg, false, false), None);
}

#[test]
fn refusals_are_reported() {
    let cases = vec![
        (RefusedReason::Closed, AddLinkError::ConnectionClosed, "connection closed"),
        (RefusedReason::NotListening, AddLinkError::NotListening, "not listening"),
        (RefusedReason::ConnectionRefused, AddLinkError::ConnectionRefused, "connection refused"),
        (RefusedReason::LinkRefused, AddLinkError::LinkRefused, "link refused"),
    ];
    for (reason, expected, text) in cases {
        let err = OutgoingHandshake::on_reply(&LinkMsg::Refused { reason }).unwrap_err();
        assert_eq!(err, expected);
        assert_eq!(err.text(), text);
        assert_eq!(err.kind(), Some(ErrorKind::ConnectionRefused));
        assert!(!err.should_reconnect());
    }
    assert_eq!(OutgoingHandshake::on_reply(&LinkMsg::Accepted), Ok(()));
}

#[test]
fn links_are_routed_to_connections() {
    let mut server: ServerInner<&str> = ServerInner::new();
    let id = ConnId(5);
    assert_eq!(server.route(id, false, false, ListenPermit::NotRequested), Route::NeedPermit);
    assert_eq!(
        server.route(id, false, false, ListenPermit::NotListening),
        Route::Refuse(RefusedReason::NotListening)
    );
    assert_eq!(server.route(id, false, true, ListenPermit::Granted), Route::Refuse(RefusedReason::Closed));
    assert_eq!(server.route(id, false, false, ListenPermit::Granted), Route::New);
    server.insert(id, "connection");
    assert_eq!(server.get(id), Some(&"connection"));
    for existing in [false, true] {
        for permit in [ListenPermit::NotRequested, ListenPermit::Granted, ListenPermit::NotListening] {
            assert_eq!(server.route(id, false, existing, permit), Route::Existing);
            assert_eq!(server.route(id, true, existing, permit), Route::Refuse(RefusedReason::Closed));
        }
    }
    assert_eq!(route_known(true), Route::Refuse(RefusedReason::Closed));
    server.insert(ConnId(6), "other");
    server.cleanup_links(&vec![id, ConnId(9)]);
    assert_eq!(server.get(id), None);
    assert_eq!(server.get(ConnId(6)), Some(&"other"));
    assert_eq!(server.route(id, false, true, ListenPermit::Granted), Route::Refuse(RefusedReason::Closed));
}

#[test]
fn only_one_listener_may_exist() {
    let mut slot = ListenerSlot::new(ServerId(3));
    assert_eq!(slot.listen(), Ok(ServerId(3)));
    assert_eq!(slot.listen(), Err(ListenError::AlreadyListening));
    slot.dropped();
    assert_eq!(slot.listen(), Ok(ServerId(3)));
    assert_eq!(slot.listen(), Err(ListenError::AlreadyListening));
    assert_eq!(ListenError::AlreadyListening.text(), "already listening");
    assert_eq!(ListenError::AlreadyListening.kind(), ErrorKind::AddrInUse);
}

#[test]
fn connection_errors_are_described() {
    assert_eq!(ConnectError::Timeout.text(), "connect timeout");
    assert_eq!(ConnectError::Timeout.kind(), ErrorKind::TimedOut);
    assert_eq!(refused_error(RefusedReason::Closed), IncomingError::Closed);
    assert_eq!(refused_error(RefusedReason::NotListening), IncomingError::NotListening);
    assert_eq!(refused_error(RefusedReason::LinkRefused), IncomingError::Refused);
    assert_eq!(IncomingError::Closed.text(), "connection was closed");
    assert_eq!(IncomingError::Closed.kind(), Some(ErrorKind::ConnectionAborted));
    assert_eq!(IncomingError::ServerDropped.text(), "server dropped");
    assert_eq!(IncomingError::ServerDropped.kind(), Some(ErrorKind::ConnectionRefused));
    assert_eq!(IncomingError::NotListening.text(), "not listening");
    assert_eq!(IncomingError::Refused.text(), "connection refused");
    assert_eq!(IncomingError::Io(LinkError::Io("lost".to_string())).text(), "IO error: lost");
    assert_eq!(IncomingError::Io(LinkError::Io("lost".to_string())).kind(), None);
    assert_eq!(IncomingError::Io(LinkError::Closed).kind(), Some(ErrorKind::BrokenPipe));
    assert_eq!(LinkError::Failed.kind(), Some(ErrorKind::ConnectionAborted));
    assert_eq!(LinkError::Ended.kind(), Some(ErrorKind::UnexpectedEof));
    assert_eq!(LinkError::Ended.text(), "message too short");
    assert_eq!(LinkError::Elapsed.kind(), Some(ErrorKind::TimedOut));
    assert_eq!(LinkError::Elapsed.text(), "deadline has elapsed");
    assert_eq!(LinkError::Msg(MsgError::TooShort).kind(), Some(ErrorKind::UnexpectedEof));
    assert_eq!(LinkError::Msg(MsgError::InvalidMagic).kind(), Some(ErrorKind::InvalidData));
    assert_eq!(ProtocolError::SeqUnderflow.kind(), ErrorKind::InvalidData);
    assert_eq!(UserDataTooLong.kind(), ErrorKind::InvalidData);
    assert_eq!(UserDataTooLong.text(), "user data is too long");
    assert_eq!(IntegrityError::PacketTooBig.encode_kind(), ErrorKind::InvalidInput);
    assert_eq!(IntegrityError::PacketTooBig.decode_kind(), ErrorKind::InvalidData);
}

#[test]
fn terminations_are_reported() {
    let protocol = Termination::Protocol { link_id: LinkId(1), error: ProtocolError::RecvBufferOverflow };
    assert_eq!(Termination::Closed.result(), Ok(()));
    assert_eq!(Termination::NoMoreLinks.result(), Err(TaskError::AllUnconfirmedTimeout));
    assert_eq!(Termination::Local.result(), Err(TaskError::Terminated));
    assert_eq!(Termination::AbortedByServer.result(), Err(TaskError::AbortedByServer));
    let err = protocol.result().unwrap_err();
    assert_eq!(err.text(), "protocol error on link 0000000000000001: receive buffer overflow");
    assert_eq!(err.kind(), ErrorKind::ConnectionAborted);
    assert_eq!(protocol.link_term().text(), "protocol error: receive buffer overflow");
    assert_eq!(protocol.read_term(), Some(RecvError::ProtocolError));
    assert_eq!(Termination::Closed.read_term(), None);
    assert_eq!(Termination::Closed.write_term(), SendError::Closed);
    assert_eq!(Termination::ServerIdMismatch.write_term(), SendError::ServerIdMismatch);
    assert_eq!(Termination::ServerIdMismatch.link_term(), DisconnectReason::ServerIdMismatch);
    assert_eq!(Termination::NoLinksTimeout.link_term(), DisconnectReason::AllUnconfirmedTimeout);
    assert_eq!(Termination::Local.send_terminate(), SendTerminate::Initiate);
    assert_eq!(Termination::Remote.send_terminate(), SendTerminate::Reply);
    assert_eq!(Termination::Closed.send_terminate(), SendTerminate::Silent);
    assert_eq!(TaskError::NoLinksTimeout.text(), "no links available timeout");
    assert_eq!(TaskError::ServerIdMismatch.text(), "a new link connected to another server");
}

#[test]
fn disconnect_reasons_are_described() {
    let cases = vec![
        (DisconnectReason::SendTimeout, "send timeout", true),
        (DisconnectReason::PingTimeout, "ping timeout", true),
        (DisconnectReason::UnconfirmedTimeout, "unconfirmed timeout", true),
        (DisconnectReason::IoError(LinkError::Closed), "IO error: broken pipe", true),
        (DisconnectReason::AllUnconfirmedTimeout, "all links unconfirmed timeout", false),
        (DisconnectReason::LocallyRequested, "locally requested", false),
        (DisconnectReason::RemotelyRequested, "remotely requested", false),
        (DisconnectReason::ConnectionClosed, "connection closed", false),
        (DisconnectReason::LinkFilter, "link filter", false),
        (DisconnectReason::ProtocolError("bad".to_string()), "protocol error: bad", false),
        (DisconnectReason::TaskTerminated, "task terminated", false),
    ];
    for (reason, text, reconnect) in cases {
        assert_eq!(reason.text(), text);
        assert_eq!(reason.should_reconnect(), reconnect);
        assert_eq!(reason.kind(), ErrorKind::ConnectionReset);
    }
    assert_eq!(NotWorkingReason::MaxPingExceeded.text(), "max ping exceeded");
    assert_eq!(Direction::Incoming.text(), "incoming");
    assert_eq!(Direction::Outgoing.text(), "outgoing");
}
