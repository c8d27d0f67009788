//! Messages exchanged over links.

use aggligator::cfg::ExchangedCfg;
use aggligator::id::{EncryptedConnId, ServerId};
use aggligator::msg::{LinkMsg, MsgError, RefusedReason, ReliableMsg, UserDataTooLong};
use aggligator::seq::SeqNum;
use bytes::Bytes;

fn written(msg: &LinkMsg) -> Vec<u8> {
    let mut buf = Vec::new();
    msg.write(&mut buf).unwrap();
    buf
}

fn welcome(user_data: Vec<u8>) -> LinkMsg {
    LinkMsg::Welcome {
        extensions: 0x01020304,
        public_key: [7; 32],
        server_id: ServerId(0x1122),
        user_data,
        cfg: ExchangedCfg { recv_buffer: 0x0a0b0c0d },
    }
}

fn connect(server_id: Option<ServerId>, existing_connection: bool) -> LinkMsg {
    LinkMsg::Connect {
        extensions: 5,
        public_key: [9; 32],
        server_id,
        connection_id: EncryptedConnId(0xabcd),
        existing_connection,
        user_data: vec![1, 2, 3],
        cfg: ExchangedCfg { recv_buffer: 1 },
    }
}

#[test]
fn short_messages_have_exact_encodings() {
    let cases: Vec<(LinkMsg, Vec<u8>)> = vec![
        (LinkMsg::Accepted, vec![3]),
        (LinkMsg::Refused { reason: RefusedReason::Closed }, vec![4, 1]),
        (LinkMsg::Refused { reason: RefusedReason::NotListening }, vec![4, 2]),
        (LinkMsg::Refused { reason: RefusedReason::ConnectionRefused }, vec![4, 3]),
        (LinkMsg::Refused { reason: RefusedReason::LinkRefused }, vec![4, 4]),
        (LinkMsg::Ping, vec![5]),
        (LinkMsg::Pong, vec![6]),
        (LinkMsg::Data { seq: SeqNum(0x01020304) }, vec![7, 1, 2, 3, 4]),
        (LinkMsg::Ack { received: SeqNum(0xfffefdfc) }, vec![8, 0xff, 0xfe, 0xfd, 0xfc]),
        (LinkMsg::Consumed { seq: SeqNum(2), consumed: 0x10000 }, vec![9, 0, 0, 0, 2, 0, 1, 0, 0]),
        (LinkMsg::SendFinish { seq: SeqNum(3) }, vec![10, 0, 0, 0, 3]),
        (LinkMsg::ReceiveClose { seq: SeqNum(4) }, vec![11, 0, 0, 0, 4]),
        (LinkMsg::ReceiveFinish { seq: SeqNum(5) }, vec![12, 0, 0, 0, 5]),
        (LinkMsg::TestData { size: 3 }, vec![13, 0, 1, 2]),
        (LinkMsg::SetBlock { blocked: true }, vec![14, 1]),
        (LinkMsg::SetBlock { blocked: false }, vec![14, 0]),
        (LinkMsg::Goodbye, vec![15]),
        (LinkMsg::Terminate, vec![16]),
    ];
    for (msg, bytes) in cases {
        assert_eq!(written(&msg), bytes);
        assert_eq!(msg.encoded_len(), bytes.len());
        assert_eq!(&msg.encode()[..], &bytes[..]);
        assert_eq!(LinkMsg::read(&bytes), Ok(msg));
    }
}

#[test]
fn welcome_has_exact_encoding() {
    let bytes = written(&welcome(vec![0xaa, 0xbb]));
    let mut expected = vec![1, b'L', b'I', b'A', b'G', 0, 4, 1, 2, 3, 4];
    expected.extend([7; 32]);
    expected.extend(0x1122u128.to_be_bytes());
    expected.extend([0, 2, 0xaa, 0xbb, 0x0a, 0x0b, 0x0c, 0x0d]);
    assert_eq!(bytes, expected);
    assert_eq!(LinkMsg::read(&bytes), Ok(welcome(vec![0xaa, 0xbb])));
}

#[test]
fn connect_has_exact_encoding() {
    let bytes = written(&connect(None, true));
    let mut expected = vec![2, b'L', b'I', b'A', b'G', 0, 4, 0, 0, 0, 5];
    expected.extend([9; 32]);
    expected.extend(0u128.to_be_bytes());
    expected.extend(0xabcdu128.to_be_bytes());
    expected.extend([1, 0, 3, 1, 2, 3, 0, 0, 0, 1]);
    assert_eq!(bytes, expected);
    assert_eq!(LinkMsg::read(&bytes), Ok(connect(None, true)));
    let with_server = connect(Some(ServerId(77)), false);
    assert_eq!(LinkMsg::read(&written(&with_server)), Ok(with_server));
}

#[test]
fn long_user_data_is_rejected() {
    let mut buf = Vec::new();
    assert_eq!(welcome(vec![0; 65_536]).write(&mut buf), Err(UserDataTooLong));
    assert_eq!(buf, written(&welcome(vec![]))[..59]);
    let mut buf = Vec::new();
    assert_eq!(welcome(vec![0; 65_535]).write(&mut buf), Ok(()));
    assert_eq!(buf.len(), 65 + 65_535);
}

#[test]
fn malformed_messages_are_rejected() {
    assert_eq!(LinkMsg::read(&[]), Err(MsgError::TooShort));
    assert_eq!(LinkMsg::read(&[0]), Err(MsgError::InvalidId(0)));
    assert_eq!(LinkMsg::read(&[17]), Err(MsgError::InvalidId(17)));
    assert_eq!(LinkMsg::read(&[4]), Err(MsgError::TooShort));
    assert_eq!(LinkMsg::read(&[4, 9]), Err(MsgError::InvalidRefusedReason(9)));
    assert_eq!(LinkMsg::read(&[7, 1, 2, 3]), Err(MsgError::TooShort));
    assert_eq!(LinkMsg::read(&[9, 0, 0, 0, 1, 0, 0, 0]), Err(MsgError::TooShort));
    assert_eq!(LinkMsg::read(&[14]), Err(MsgError::TooShort));

    let good = written(&welcome(vec![1]));
    for len in 1..good.len() {
        assert_eq!(LinkMsg::read(&good[..len]), Err(MsgError::TooShort), "length {len}");
    }
    let mut bad = good.clone();
    bad[1] = b'X';
    assert_eq!(LinkMsg::read(&bad), Err(MsgError::InvalidMagic));
    let mut bad = good.clone();
    bad[6] = 9;
    assert_eq!(LinkMsg::read(&bad), Err(MsgError::InvalidVersion(9)));
    let mut bad = good.clone();
    for byte in &mut bad[43..59] {
        *byte = 0;
    }
    assert_eq!(LinkMsg::read(&bad), Err(MsgError::ZeroServerId));
    let mut bad = good;
    let len = bad.len();
    for byte in &mut bad[len - 4..] {
        *byte = 0;
    }
    assert_eq!(LinkMsg::read(&bad), Err(MsgError::ZeroRecvBuffer));
}

#[test]
fn message_errors_are_described() {
    assert_eq!(MsgError::TooShort.text(), "failed to fill whole buffer");
    assert_eq!(MsgError::InvalidMagic.text(), "invalid magic");
    assert_eq!(MsgError::InvalidVersion(205).text(), "expected protocol version 4 but got 205");
    assert_eq!(MsgError::InvalidId(7).text(), "invalid message id 7");
    assert_eq!(MsgError::InvalidRefusedReason(0).text(), "unknown refused reason 0");
}

#[test]
fn trailing_bytes_are_ignored() {
    assert_eq!(LinkMsg::read(&[5, 1, 2, 3]), Ok(LinkMsg::Ping));
    assert_eq!(LinkMsg::read(&[7, 0, 0, 0, 1, 99]), Ok(LinkMsg::Data { seq: SeqNum(1) }));
    assert_eq!(LinkMsg::read(&[14, 2]), Ok(LinkMsg::SetBlock { blocked: true }));
}

#[test]
fn reliable_messages_survive_the_link() {
    let data = Bytes::from_static(b"payload");
    let (msg, payload) = ReliableMsg::Data(data.clone()).to_link_msg(SeqNum(8));
    assert_eq!(msg, LinkMsg::Data { seq: SeqNum(8) });
    assert_eq!(payload, Some(data.clone()));
    let Some((ReliableMsg::Data(back), seq)) = ReliableMsg::from_link_msg(msg, payload) else {
        panic!("data message expected")
    };
    assert_eq!((back, seq), (data, SeqNum(8)));

    let (msg, payload) = ReliableMsg::Consumed(55).to_link_msg(SeqNum(9));
    assert_eq!(payload, None);
    let Some((ReliableMsg::Consumed(55), SeqNum(9))) = ReliableMsg::from_link_msg(msg, None) else {
        panic!("consumed message expected")
    };
    for msg in [ReliableMsg::SendFinish, ReliableMsg::ReceiveClose, ReliableMsg::ReceiveFinish] {
        let text = format!("{msg:?}");
        let (link_msg, _) = msg.to_link_msg(SeqNum(10));
        let (back, seq) = ReliableMsg::from_link_msg(link_msg, None).unwrap();
        assert_eq!((format!("{back:?}"), seq), (text, SeqNum(10)));
        assert_eq!(back.size(), 0);
    }
    assert!(ReliableMsg::from_link_msg(LinkMsg::Ping, None).is_none());
    assert_eq!(ReliableMsg::Data(Bytes::from_static(b"abc")).duplicate().size(), 3);
}
