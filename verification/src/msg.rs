//! Protocol messages.

use crate::buf::{be_bytes, be_value, bytes_at, bytes_from_vec, content, read_bytes, read_u128, read_u16, read_u32, read_u8, value_at, write_all, write_u128, write_u16, write_u32, write_u8};
use crate::buf::{law_be_roundtrip, lemma_be_bytes_len, lemma_byte_ranges};
use crate::cfg::ExchangedCfg;
use crate::error::ErrorKind;
use crate::id::{EncryptedConnId, ServerId};
use crate::seq::SeqNum;
use crate::text::{decimal_text, join, number_text};
use bytes::Bytes;
use vstd::prelude::*;
use vstd::std_specs::convert::FromSpecImpl;

verus! {

/// An error while decoding a message.
#[derive(Debug, Clone, Copy, PartialEq, Eq, Structural)]
pub enum MsgError {
    /// The message ended early.
    TooShort,
    /// The magic identifier is wrong.
    InvalidMagic,
    /// The protocol version of the remote endpoint is not supported.
    InvalidVersion(u8),
    /// The server identifier is zero.
    ZeroServerId,
    /// The receive buffer size is zero.
    ZeroRecvBuffer,
    /// The reason for refusal is unknown.
    InvalidRefusedReason(u8),
    /// The kind of message is unknown.
    InvalidId(u8),
}

impl MsgError {
    /// Text describing this error.
    pub open spec fn describe(self) -> Seq<char> {
        match self {
            MsgError::TooShort => "failed to fill whole buffer"@,
            MsgError::InvalidMagic => "invalid magic"@,
            MsgError::InvalidVersion(got) => "expected protocol version 4 but got "@ + decimal_text(got as nat),
            MsgError::ZeroServerId => "server id must not be zero"@,
            MsgError::ZeroRecvBuffer => "recv_buffer must not be zero"@,
            MsgError::InvalidRefusedReason(id) => "unknown refused reason "@ + decimal_text(id as nat),
            MsgError::InvalidId(id) => "invalid message id "@ + decimal_text(id as nat),
        }
    }

    /// Category of this error as an IO error.
    pub open spec fn category(self) -> ErrorKind {
        match self {
            MsgError::TooShort => ErrorKind::UnexpectedEof,
            _ => ErrorKind::InvalidData,
        }
    }

    /// Category of this error as an IO error.
    pub fn kind(&self) -> (r: ErrorKind)
        ensures
            r == self.category(),
    {
        match self {
            MsgError::TooShort => ErrorKind::UnexpectedEof,
            _ => ErrorKind::InvalidData,
        }
    }

    /// Text describing this error.
    pub fn text(&self) -> (r: String)
        ensures
            r@ == self.describe(),
    {
        match *self {
            MsgError::TooShort => "failed to fill whole buffer".to_string(),
            MsgError::InvalidMagic => "invalid magic".to_string(),
            MsgError::InvalidVersion(got) => join(
                "expected protocol version 4 but got ",
                number_text(got as u64).as_str(),
            ),
            MsgError::ZeroServerId => "server id must not be zero".to_string(),
            MsgError::ZeroRecvBuffer => "recv_buffer must not be zero".to_string(),
            MsgError::InvalidRefusedReason(id) => join("unknown refused reason ", number_text(id as u64).as_str()),
            MsgError::InvalidId(id) => join("invalid message id ", number_text(id as u64).as_str()),
        }
    }
}

/// Reason for refusal of an incoming link.
#[derive(Debug, Clone, Copy, PartialEq, Eq, Structural)]
pub enum RefusedReason {
    /// The connection was closed.
    Closed,
    /// The server is not accepting new connections.
    NotListening,
    /// The incoming connection was refused.
    ConnectionRefused,
    /// The incoming link was refused by the link filter.
    LinkRefused,
}

impl RefusedReason {
    /// Identifier of this reason on the wire.
    pub open spec fn id(self) -> u8 {
        match self {
            RefusedReason::Closed => 1,
            RefusedReason::NotListening => 2,
            RefusedReason::ConnectionRefused => 3,
            RefusedReason::LinkRefused => 4,
        }
    }

    /// The reason with the specified identifier.
    pub open spec fn of_id(id: u8) -> Result<RefusedReason, MsgError> {
        if id == 1 {
            Ok(RefusedReason::Closed)
        } else if id == 2 {
            Ok(RefusedReason::NotListening)
        } else if id == 3 {
            Ok(RefusedReason::ConnectionRefused)
        } else if id == 4 {
            Ok(RefusedReason::LinkRefused)
        } else {
            Err(MsgError::InvalidRefusedReason(id))
        }
    }

    /// The reason with the specified identifier.
    pub fn from_id(id: u8) -> (r: Result<RefusedReason, MsgError>)
        ensures
            r == RefusedReason::of_id(id),
    {
        match id {
            1 => Ok(RefusedReason::Closed),
            2 => Ok(RefusedReason::NotListening),
            3 => Ok(RefusedReason::ConnectionRefused),
            4 => Ok(RefusedReason::LinkRefused),
            _ => Err(MsgError::InvalidRefusedReason(id)),
        }
    }
}

impl FromSpecImpl<RefusedReason> for u8 {
    open spec fn obeys_from_spec() -> bool {
        true
    }

    open spec fn from_spec(reason: RefusedReason) -> u8 {
        reason.id()
    }
}

impl From<RefusedReason> for u8 {
    fn from(reason: RefusedReason) -> (r: Self) {
        match reason {
            RefusedReason::Closed => 1,
            RefusedReason::NotListening => 2,
            RefusedReason::ConnectionRefused => 3,
            RefusedReason::LinkRefused => 4,
        }
    }
}

/// Message between two endpoints of a link.
#[allow(inconsistent_fields)]
#[derive(Debug, Clone, PartialEq, Eq)]
pub enum LinkMsg {
    /// Welcome message sent from server to client.
    Welcome {
        /// Flags of supported protocol extensions.
        extensions: u32,
        /// Diffie-Hellman public key for this link of server.
        public_key: [u8; 32],
        /// Unique identifier of this server.
        server_id: ServerId,
        /// User-specified link data.
        user_data: Vec<u8>,
        /// Configuration of server.
        cfg: ExchangedCfg,
    },
    /// Connect message from client to server.
    Connect {
        /// Flags of supported protocol extensions.
        extensions: u32,
        /// Diffie-Hellman public key for this link of client.
        public_key: [u8; 32],
        /// Unique identifier of this server.
        /// `None` if the endpoint does not accept incoming connections.
        server_id: Option<ServerId>,
        /// Encrypted connection identifier.
        connection_id: EncryptedConnId,
        /// Whether connection must already exist on the server.
        existing_connection: bool,
        /// User-specified link data.
        user_data: Vec<u8>,
        /// Configuration of client.
        cfg: ExchangedCfg,
    },
    /// Connection accepted by server.
    Accepted,
    /// Connection refused by server.
    Refused {
        /// Reason for refusal.
        reason: RefusedReason,
    },
    /// Echo request.
    Ping,
    /// Echo reply.
    Pong,
    /// Data.
    ///
    /// This is followed by one data packet.
    Data {
        /// Sequence number.
        seq: SeqNum,
    },
    /// Acknowledges data received over this link.
    Ack {
        /// Sequence that has been received on this link.
        received: SeqNum,
    },
    /// Notifies that received data has been consumed.
    Consumed {
        /// Sequence number.
        seq: SeqNum,
        /// Number of bytes consumed.
        consumed: u32,
    },
    /// No more data will be sent.
    SendFinish {
        /// Sequence number.
        seq: SeqNum,
    },
    /// Not interested in receiving any more data,
    /// but already sent data will still be processed.
    ReceiveClose {
        /// Sequence number.
        seq: SeqNum,
    },
    /// No more received data will be processed.
    ReceiveFinish {
        /// Sequence number.
        seq: SeqNum,
    },
    /// Test data to check link.
    TestData {
        /// Size of data.
        size: usize,
    },
    /// Set blocking of link.
    SetBlock {
        /// Whether the link is blocked.
        blocked: bool,
    },
    /// No more message will be send, but messages will be received
    /// until `Goodbye` is received.
    Goodbye,
    /// Forcefully terminate connection.
    Terminate,
}

/// Mathematical model of a message.
#[allow(inconsistent_fields)]
pub enum MsgView {
    /// Welcome message sent from server to client.
    Welcome { extensions: u32, public_key: Seq<u8>, server_id: ServerId, user_data: Seq<u8>, cfg: ExchangedCfg },
    /// Connect message from client to server.
    Connect {
        extensions: u32,
        public_key: Seq<u8>,
        server_id: Option<ServerId>,
        connection_id: EncryptedConnId,
        existing_connection: bool,
        user_data: Seq<u8>,
        cfg: ExchangedCfg,
    },
    /// Connection accepted by server.
    Accepted,
    /// Connection refused by server.
    Refused { reason: RefusedReason },
    /// Echo request.
    Ping,
    /// Echo reply.
    Pong,
    /// Data.
    Data { seq: SeqNum },
    /// Acknowledges data received over this link.
    Ack { received: SeqNum },
    /// Notifies that received data has been consumed.
    Consumed { seq: SeqNum, consumed: u32 },
    /// No more data will be sent.
    SendFinish { seq: SeqNum },
    /// Not interested in receiving any more data.
    ReceiveClose { seq: SeqNum },
    /// No more received data will be processed.
    ReceiveFinish { seq: SeqNum },
    /// Test data to check link.
    TestData { size: nat },
    /// Set blocking of link.
    SetBlock { blocked: bool },
    /// No more message will be send.
    Goodbye,
    /// Forcefully terminate connection.
    Terminate,
}

impl View for LinkMsg {
    type V = MsgView;

    open spec fn view(&self) -> MsgView {
        match *self {
            LinkMsg::Welcome { extensions, public_key, server_id, user_data, cfg } => MsgView::Welcome {
                extensions,
                public_key: public_key@,
                server_id,
                user_data: user_data@,
                cfg,
            },
            LinkMsg::Connect {
                extensions,
                public_key,
                server_id,
                connection_id,
                existing_connection,
                user_data,
                cfg,
            } => MsgView::Connect {
                extensions,
                public_key: public_key@,
                server_id,
                connection_id,
                existing_connection,
                user_data: user_data@,
                cfg,
            },
            LinkMsg::Accepted => MsgView::Accepted,
            LinkMsg::Refused { reason } => MsgView::Refused { reason },
            LinkMsg::Ping => MsgView::Ping,
            LinkMsg::Pong => MsgView::Pong,
            LinkMsg::Data { seq } => MsgView::Data { seq },
            LinkMsg::Ack { received } => MsgView::Ack { received },
            LinkMsg::Consumed { seq, consumed } => MsgView::Consumed { seq, consumed },
            LinkMsg::SendFinish { seq } => MsgView::SendFinish { seq },
            LinkMsg::ReceiveClose { seq } => MsgView::ReceiveClose { seq },
            LinkMsg::ReceiveFinish { seq } => MsgView::ReceiveFinish { seq },
            LinkMsg::TestData { size } => MsgView::TestData { size: size as nat },
            LinkMsg::SetBlock { blocked } => MsgView::SetBlock { blocked },
            LinkMsg::Goodbye => MsgView::Goodbye,
            LinkMsg::Terminate => MsgView::Terminate,
        }
    }
}

/// Magic identifier: the letters LIAG, followed by a zero byte.
pub open spec fn magic() -> Seq<u8> {
    seq![76u8, 73u8, 65u8, 71u8, 0u8]
}

/// Protocol version.
pub const PROTOCOL_VERSION: u8 = 4;

/// One byte telling whether a flag is set.
pub open spec fn flag_byte(flag: bool) -> u8 {
    if flag {
        1
    } else {
        0
    }
}

/// The number that stands for an optional server identifier; zero if there is none.
pub open spec fn server_id_number(server_id: Option<ServerId>) -> nat {
    match server_id {
        Some(id) => id.0 as nat,
        None => 0,
    }
}

/// User data, preceded by its length.
pub open spec fn user_data_bytes(user_data: Seq<u8>) -> Seq<u8> {
    be_bytes(user_data.len(), 2) + user_data
}

/// Content of a test data message.
pub open spec fn test_data(size: nat) -> Seq<u8> {
    Seq::new(size, |i: int| (i % 256) as u8)
}

impl MsgView {
    /// Whether this message can be sent.
    ///
    /// User data must not be longer than its length field allows and
    /// the server identifier and receive buffer size must not be zero.
    pub open spec fn wf(self) -> bool {
        match self {
            MsgView::Welcome { public_key, server_id, user_data, cfg, .. } => {
                &&& public_key.len() == 32
                &&& server_id.wf()
                &&& user_data.len() <= u16::MAX
                &&& cfg.wf()
            },
            MsgView::Connect { public_key, server_id, user_data, cfg, .. } => {
                &&& public_key.len() == 32
                &&& (server_id matches Some(id) ==> id.wf())
                &&& user_data.len() <= u16::MAX
                &&& cfg.wf()
            },
            MsgView::TestData { size } => size <= usize::MAX,
            _ => true,
        }
    }

    /// What precedes the user data in the encoded message, if it carries user data.
    pub open spec fn before_user_data(self) -> Seq<u8> {
        match self {
            MsgView::Welcome { extensions, public_key, server_id, .. } => {
                seq![1u8] + magic() + seq![PROTOCOL_VERSION] + be_bytes(extensions as nat, 4) + public_key + be_bytes(
                    server_id.0 as nat,
                    16,
                )
            },
            MsgView::Connect { extensions, public_key, server_id, connection_id, existing_connection, .. } => {
                seq![2u8] + magic() + seq![PROTOCOL_VERSION] + be_bytes(extensions as nat, 4) + public_key + be_bytes(
                    server_id_number(server_id),
                    16,
                ) + be_bytes(connection_id.0 as nat, 16) + seq![flag_byte(existing_connection)]
            },
            _ => Seq::empty(),
        }
    }

    /// The encoded message.
    #[verifier::opaque]
    pub open spec fn bytes(self) -> Seq<u8> {
        match self {
            MsgView::Welcome { extensions, public_key, server_id, user_data, cfg } => {
                seq![1u8] + magic() + seq![PROTOCOL_VERSION] + be_bytes(extensions as nat, 4) + public_key + be_bytes(
                    server_id.0 as nat,
                    16,
                ) + user_data_bytes(user_data) + cfg.bytes()
            },
            MsgView::Connect {
                extensions,
                public_key,
                server_id,
                connection_id,
                existing_connection,
                user_data,
                cfg,
            } => {
                seq![2u8] + magic() + seq![PROTOCOL_VERSION] + be_bytes(extensions as nat, 4) + public_key + be_bytes(
                    server_id_number(server_id),
                    16,
                ) + be_bytes(connection_id.0 as nat, 16) + seq![flag_byte(existing_connection)] + user_data_bytes(
                    user_data,
                ) + cfg.bytes()
            },
            MsgView::Accepted => seq![3u8],
            MsgView::Refused { reason } => seq![4u8, reason.id()],
            MsgView::Ping => seq![5u8],
            MsgView::Pong => seq![6u8],
            MsgView::Data { seq } => seq![7u8] + be_bytes(seq.0 as nat, 4),
            MsgView::Ack { received } => seq![8u8] + be_bytes(received.0 as nat, 4),
            MsgView::Consumed { seq, consumed } => seq![9u8] + be_bytes(seq.0 as nat, 4) + be_bytes(consumed as nat, 4),
            MsgView::SendFinish { seq } => seq![10u8] + be_bytes(seq.0 as nat, 4),
            MsgView::ReceiveClose { seq } => seq![11u8] + be_bytes(seq.0 as nat, 4),
            MsgView::ReceiveFinish { seq } => seq![12u8] + be_bytes(seq.0 as nat, 4),
            MsgView::TestData { size } => seq![13u8] + test_data(size),
            MsgView::SetBlock { blocked } => seq![14u8, flag_byte(blocked)],
            MsgView::Goodbye => seq![15u8],
            MsgView::Terminate => seq![16u8],
        }
    }

    /// The message encoded in `b`.
    ///
    /// Bytes that follow the message are ignored.
    pub open spec fn parse(b: Seq<u8>) -> Result<MsgView, MsgError> {
        if b.len() < 1 {
            Err(MsgError::TooShort)
        } else if b[0] == 1 {
            parse_welcome(b)
        } else if b[0] == 2 {
            parse_connect(b)
        } else if b[0] == 3 {
            Ok(MsgView::Accepted)
        } else if b[0] == 4 {
            if b.len() < 2 {
                Err(MsgError::TooShort)
            } else {
                match RefusedReason::of_id(b[1]) {
                    Ok(reason) => Ok(MsgView::Refused { reason }),
                    Err(err) => Err(err),
                }
            }
        } else if b[0] == 5 {
            Ok(MsgView::Ping)
        } else if b[0] == 6 {
            Ok(MsgView::Pong)
        } else if b[0] == 13 {
            Ok(MsgView::TestData { size: (b.len() - 1) as nat })
        } else if b[0] == 14 {
            if b.len() < 2 {
                Err(MsgError::TooShort)
            } else {
                Ok(MsgView::SetBlock { blocked: b[1] != 0 })
            }
        } else if b[0] == 15 {
            Ok(MsgView::Goodbye)
        } else if b[0] == 16 {
            Ok(MsgView::Terminate)
        } else if 7 <= b[0] <= 12 {
            parse_sequenced(b)
        } else {
            Err(MsgError::InvalidId(b[0]))
        }
    }
}

/// The message with a sequence number encoded in `b`.
pub open spec fn parse_sequenced(b: Seq<u8>) -> Result<MsgView, MsgError> {
    match value_at(b, 1, 4) {
        None => Err(MsgError::TooShort),
        Some(n) => {
            let seq = SeqNum(n as u32);
            if b[0] == 7 {
                Ok(MsgView::Data { seq })
            } else if b[0] == 8 {
                Ok(MsgView::Ack { received: seq })
            } else if b[0] == 9 {
                match value_at(b, 5, 4) {
                    None => Err(MsgError::TooShort),
                    Some(consumed) => Ok(MsgView::Consumed { seq, consumed: consumed as u32 }),
                }
            } else if b[0] == 10 {
                Ok(MsgView::SendFinish { seq })
            } else if b[0] == 11 {
                Ok(MsgView::ReceiveClose { seq })
            } else {
                Ok(MsgView::ReceiveFinish { seq })
            }
        },
    }
}

/// Whether the magic identifier and protocol version in `b` are right.
pub open spec fn parse_preamble(b: Seq<u8>) -> Result<(), MsgError> {
    if b.len() < 6 {
        Err(MsgError::TooShort)
    } else if b.subrange(1, 6) != magic() {
        Err(MsgError::InvalidMagic)
    } else if b.len() < 7 {
        Err(MsgError::TooShort)
    } else if b[6] != PROTOCOL_VERSION {
        Err(MsgError::InvalidVersion(b[6]))
    } else {
        Ok(())
    }
}

/// The user data and configuration encoded in `b` from position `pos`.
pub open spec fn parse_trailer(b: Seq<u8>, pos: int) -> Result<(Seq<u8>, ExchangedCfg), MsgError> {
    match value_at(b, pos, 2) {
        None => Err(MsgError::TooShort),
        Some(len) => match bytes_at(b, pos + 2, len as int) {
            None => Err(MsgError::TooShort),
            Some(user_data) => match ExchangedCfg::parse(b, pos + 2 + len) {
                Err(err) => Err(err),
                Ok(cfg) => Ok((user_data, cfg)),
            },
        },
    }
}

/// The welcome message encoded in `b`.
pub open spec fn parse_welcome(b: Seq<u8>) -> Result<MsgView, MsgError> {
    match parse_preamble(b) {
        Err(err) => Err(err),
        Ok(()) => if b.len() < 59 {
            Err(MsgError::TooShort)
        } else if be_value(b.subrange(43, 59)) == 0 {
            Err(MsgError::ZeroServerId)
        } else {
            match parse_trailer(b, 59) {
                Err(err) => Err(err),
                Ok((user_data, cfg)) => Ok(
                    MsgView::Welcome {
                        extensions: be_value(b.subrange(7, 11)) as u32,
                        public_key: b.subrange(11, 43),
                        server_id: ServerId(be_value(b.subrange(43, 59)) as u128),
                        user_data,
                        cfg,
                    },
                ),
            }
        },
    }
}

/// The connect message encoded in `b`.
pub open spec fn parse_connect(b: Seq<u8>) -> Result<MsgView, MsgError> {
    match parse_preamble(b) {
        Err(err) => Err(err),
        Ok(()) => if b.len() < 76 {
            Err(MsgError::TooShort)
        } else {
            match parse_trailer(b, 76) {
                Err(err) => Err(err),
                Ok((user_data, cfg)) => Ok(
                    MsgView::Connect {
                        extensions: be_value(b.subrange(7, 11)) as u32,
                        public_key: b.subrange(11, 43),
                        server_id: if be_value(b.subrange(43, 59)) == 0 {
                            None
                        } else {
                            Some(ServerId(be_value(b.subrange(43, 59)) as u128))
                        },
                        connection_id: EncryptedConnId(be_value(b.subrange(59, 75)) as u128),
                        existing_connection: b[75] != 0,
                        user_data,
                        cfg,
                    },
                ),
            }
        },
    }
}

/// User data and configuration at the end of a message are read back as they were written.
proof fn lemma_trailer_roundtrip(head: Seq<u8>, user_data: Seq<u8>, cfg: ExchangedCfg)
    requires
        user_data.len() <= u16::MAX,
        cfg.wf(),
    ensures
        parse_trailer(head + user_data_bytes(user_data) + cfg.bytes(), head.len() as int) == Ok::<
            (Seq<u8>, ExchangedCfg),
            MsgError,
        >((user_data, cfg)),
{
    lemma_byte_ranges();
    let b = head + user_data_bytes(user_data) + cfg.bytes();
    let len = be_bytes(user_data.len(), 2);
    law_be_roundtrip(user_data.len(), 2);
    law_be_roundtrip(cfg.recv_buffer as nat, 4);
    let start: int = head.len() as int;
    let pos: int = start + 2 + user_data.len();
    assert(b.subrange(start, start + 2) =~= len);
    assert(b.subrange(start + 2, pos) =~= user_data);
    assert(b.subrange(pos, pos + 4) =~= cfg.bytes());
}

/// A handshake message starts with its kind, the magic identifier and the protocol version.
proof fn lemma_preamble_roundtrip(id: u8, rest: Seq<u8>)
    ensures
        parse_preamble(seq![id] + magic() + seq![PROTOCOL_VERSION] + rest) == Ok::<(), MsgError>(()),
{
    let b = seq![id] + magic() + seq![PROTOCOL_VERSION] + rest;
    assert(b.subrange(1, 6) =~= magic());
}

/// Decoding a welcome message that was encoded gives back the message.
proof fn lemma_welcome_roundtrip(
    extensions: u32,
    public_key: Seq<u8>,
    server_id: ServerId,
    user_data: Seq<u8>,
    cfg: ExchangedCfg,
)
    requires
        public_key.len() == 32,
        server_id.wf(),
        user_data.len() <= u16::MAX,
        cfg.wf(),
    ensures
        ({
            let msg = MsgView::Welcome { extensions, public_key, server_id, user_data, cfg };
            parse_welcome(msg.bytes()) == Ok::<MsgView, MsgError>(msg)
        }),
{
    reveal(MsgView::bytes);
    lemma_byte_ranges();
    let b = MsgView::Welcome { extensions, public_key, server_id, user_data, cfg }.bytes();
    let ext = be_bytes(extensions as nat, 4);
    let sid = be_bytes(server_id.0 as nat, 16);
    law_be_roundtrip(extensions as nat, 4);
    law_be_roundtrip(server_id.0 as nat, 16);
    let head = seq![1u8] + magic() + seq![PROTOCOL_VERSION] + ext + public_key + sid;
    lemma_trailer_roundtrip(head, user_data, cfg);
    lemma_preamble_roundtrip(1, b.skip(7));
    assert(head.len() == 59);
    assert(b =~= seq![1u8] + magic() + seq![PROTOCOL_VERSION] + b.skip(7));
    assert(b.subrange(7, 11) =~= ext);
    assert(b.subrange(11, 43) =~= public_key);
    assert(b.subrange(43, 59) =~= sid);
}

/// Where the parts of a connect message stand.
proof fn lemma_connect_layout(
    start: Seq<u8>,
    ext: Seq<u8>,
    key: Seq<u8>,
    sid: Seq<u8>,
    cid: Seq<u8>,
    flag: u8,
    trailer: Seq<u8>,
)
    requires
        start.len() == 7,
        ext.len() == 4,
        key.len() == 32,
        sid.len() == 16,
        cid.len() == 16,
    ensures
        ({
            let head = start + ext + key + sid + cid + seq![flag];
            let b = head + trailer;
            &&& head.len() == 76
            &&& b == start + b.skip(7)
            &&& b.subrange(7, 11) == ext
            &&& b.subrange(11, 43) == key
            &&& b.subrange(43, 59) == sid
            &&& b.subrange(59, 75) == cid
            &&& b[75] == flag
        }),
{
    let b = start + ext + key + sid + cid + seq![flag] + trailer;
    assert(b =~= start + b.skip(7));
    assert(b.subrange(7, 11) =~= ext);
    assert(b.subrange(11, 43) =~= key);
    assert(b.subrange(43, 59) =~= sid);
    assert(b.subrange(59, 75) =~= cid);
}

/// Decoding a connect message that was encoded gives back the message.
proof fn lemma_connect_roundtrip(
    extensions: u32,
    public_key: Seq<u8>,
    server_id: Option<ServerId>,
    connection_id: EncryptedConnId,
    existing_connection: bool,
    user_data: Seq<u8>,
    cfg: ExchangedCfg,
)
    requires
        public_key.len() == 32,
        server_id matches Some(id) ==> id.wf(),
        user_data.len() <= u16::MAX,
        cfg.wf(),
    ensures
        ({
            let msg = MsgView::Connect {
                extensions,
                public_key,
                server_id,
                connection_id,
                existing_connection,
                user_data,
                cfg,
            };
            parse_connect(msg.bytes()) == Ok::<MsgView, MsgError>(msg)
        }),
{
    reveal(MsgView::bytes);
    lemma_byte_ranges();
    let b = MsgView::Connect {
        extensions,
        public_key,
        server_id,
        connection_id,
        existing_connection,
        user_data,
        cfg,
    }.bytes();
    let start = seq![2u8] + magic() + seq![PROTOCOL_VERSION];
    let ext = be_bytes(extensions as nat, 4);
    let sid = be_bytes(server_id_number(server_id), 16);
    let cid = be_bytes(connection_id.0 as nat, 16);
    let flag = flag_byte(existing_connection);
    law_be_roundtrip(extensions as nat, 4);
    law_be_roundtrip(server_id_number(server_id), 16);
    law_be_roundtrip(connection_id.0 as nat, 16);
    let head = start + ext + public_key + sid + cid + seq![flag];
    let trailer = user_data_bytes(user_data) + cfg.bytes();
    lemma_trailer_roundtrip(head, user_data, cfg);
    lemma_connect_layout(start, ext, public_key, sid, cid, flag, trailer);
    assert(b == head + user_data_bytes(user_data) + cfg.bytes());
    assert(b =~= head + trailer);
    lemma_preamble_roundtrip(2, b.skip(7));
}

/// Decoding a message that carries a sequence number gives back the message.
proof fn lemma_sequenced_roundtrip(msg: MsgView)
    requires
        msg is Data || msg is Ack || msg is Consumed || msg is SendFinish || msg is ReceiveClose
            || msg is ReceiveFinish,
    ensures
        parse_sequenced(msg.bytes()) == Ok::<MsgView, MsgError>(msg),
{
    reveal(MsgView::bytes);
    lemma_byte_ranges();
    let b = msg.bytes();
    match msg {
        MsgView::Data { seq }
        | MsgView::SendFinish { seq }
        | MsgView::ReceiveClose { seq }
        | MsgView::ReceiveFinish { seq }
        | MsgView::Ack { received: seq } => {
            law_be_roundtrip(seq.0 as nat, 4);
            assert(b.subrange(1, 5) =~= be_bytes(seq.0 as nat, 4));
        },
        MsgView::Consumed { seq, consumed } => {
            law_be_roundtrip(seq.0 as nat, 4);
            law_be_roundtrip(consumed as nat, 4);
            assert(b.subrange(1, 5) =~= be_bytes(seq.0 as nat, 4));
            assert(b.subrange(5, 9) =~= be_bytes(consumed as nat, 4));
        },
        _ => {},
    }
}

/// Decoding a message that was encoded gives back the message.
pub proof fn law_msg_roundtrip(msg: MsgView)
    requires
        msg.wf(),
    ensures
        MsgView::parse(msg.bytes()) == Ok::<MsgView, MsgError>(msg),
{
    reveal(MsgView::bytes);
    lemma_msg_len(msg);
    match msg {
        MsgView::Welcome { extensions, public_key, server_id, user_data, cfg } => {
            lemma_welcome_roundtrip(extensions, public_key, server_id, user_data, cfg);
        },
        MsgView::Connect {
            extensions,
            public_key,
            server_id,
            connection_id,
            existing_connection,
            user_data,
            cfg,
        } => {
            lemma_connect_roundtrip(
                extensions,
                public_key,
                server_id,
                connection_id,
                existing_connection,
                user_data,
                cfg,
            );
        },
        MsgView::Data { .. }
        | MsgView::Ack { .. }
        | MsgView::Consumed { .. }
        | MsgView::SendFinish { .. }
        | MsgView::ReceiveClose { .. }
        | MsgView::ReceiveFinish { .. } => {
            lemma_sequenced_roundtrip(msg);
        },
        _ => {},
    }
}

/// The byte that tells whether a flag is set.
fn flag_to_byte(flag: bool) -> (r: u8)
    ensures
        r == flag_byte(flag),
{
    if flag {
        1
    } else {
        0
    }
}

/// Copies 32 bytes from position `pos`.
fn read_key(reader: &[u8], pos: usize) -> (r: Option<[u8; 32]>)
    requires
        pos <= reader@.len(),
    ensures
        r is Some <==> pos + 32 <= reader@.len(),
        r is Some ==> r->0@ == reader@.subrange(pos as int, pos + 32),
{
    if reader.len() - pos < 32 {
        return None;
    }
    let mut key: [u8; 32] = [0; 32];
    let mut i: usize = 0;
    while i < 32
        invariant
            i <= 32,
            pos + 32 <= reader@.len() <= usize::MAX,
            forall|j: int| 0 <= j < i ==> key@[j] == reader@[pos + j],
        decreases 32 - i,
    {
        key[i] = reader[pos + i];
        i += 1;
    }
    assert(key@ =~= reader@.subrange(pos as int, pos + 32));
    Some(key)
}

/// Appends the kind of a handshake message, the magic identifier and the protocol version.
fn write_preamble(writer: &mut Vec<u8>, id: u8)
    ensures
        final(writer)@ == old(writer)@ + (seq![id] + magic() + seq![PROTOCOL_VERSION]),
{
    write_u8(writer, id);
    write_u8(writer, 76);
    write_u8(writer, 73);
    write_u8(writer, 65);
    write_u8(writer, 71);
    write_u8(writer, 0);
    write_u8(writer, PROTOCOL_VERSION);
    assert(writer@ =~= old(writer)@ + (seq![id] + magic() + seq![PROTOCOL_VERSION]));
}

/// Checks the magic identifier and the protocol version.
fn read_preamble(reader: &[u8]) -> (r: Result<(), MsgError>)
    requires
        reader@.len() >= 1,
    ensures
        r == parse_preamble(reader@),
{
    if reader.len() < 6 {
        return Err(MsgError::TooShort);
    }
    if reader[1] != 76 || reader[2] != 73 || reader[3] != 65 || reader[4] != 71 || reader[5] != 0 {
        assert(reader@.subrange(1, 6) != magic()) by {
            assert(reader@[1] == reader@.subrange(1, 6)[0]);
            assert(reader@[2] == reader@.subrange(1, 6)[1]);
            assert(reader@[3] == reader@.subrange(1, 6)[2]);
            assert(reader@[4] == reader@.subrange(1, 6)[3]);
            assert(reader@[5] == reader@.subrange(1, 6)[4]);
        }
        return Err(MsgError::InvalidMagic);
    }
    assert(reader@.subrange(1, 6) =~= magic());
    match read_u8(reader, 6) {
        None => Err(MsgError::TooShort),
        Some(version) => if version != PROTOCOL_VERSION {
            Err(MsgError::InvalidVersion(version))
        } else {
            Ok(())
        },
    }
}

/// Reads the user data and the configuration from position `pos`.
fn read_trailer(reader: &[u8], pos: usize) -> (r: Result<(Vec<u8>, ExchangedCfg), MsgError>)
    requires
        pos <= reader@.len(),
    ensures
        r is Ok <==> parse_trailer(reader@, pos as int) is Ok,
        r matches Ok((user_data, cfg)) ==> (user_data@, cfg) == parse_trailer(reader@, pos as int)->Ok_0,
        r matches Err(err) ==> err == parse_trailer(reader@, pos as int)->Err_0,
{
    let total: usize = reader.len();
    let len: u16 = match read_u16(reader, pos) {
        None => return Err(MsgError::TooShort),
        Some(len) => len,
    };
    assert(pos + 2 <= total);
    match read_bytes(reader, pos + 2, len as usize) {
        None => Err(MsgError::TooShort),
        Some(user_data) => match ExchangedCfg::read(reader, pos + 2 + len as usize) {
            Err(err) => Err(err),
            Ok(cfg) => Ok((user_data, cfg)),
        },
    }
}

/// Reads a welcome message.
fn read_welcome(reader: &[u8]) -> (r: Result<LinkMsg, MsgError>)
    requires
        reader@.len() >= 1,
    ensures
        r is Ok <==> parse_welcome(reader@) is Ok,
        r matches Ok(msg) ==> msg@ == parse_welcome(reader@)->Ok_0,
        r matches Err(err) ==> err == parse_welcome(reader@)->Err_0,
{
    match read_preamble(reader) {
        Err(err) => return Err(err),
        Ok(()) => {},
    }
    let extensions: u32 = match read_u32(reader, 7) {
        None => return Err(MsgError::TooShort),
        Some(extensions) => extensions,
    };
    let public_key: [u8; 32] = match read_key(reader, 11) {
        None => return Err(MsgError::TooShort),
        Some(public_key) => public_key,
    };
    let server_id: u128 = match read_u128(reader, 43) {
        None => return Err(MsgError::TooShort),
        Some(server_id) => server_id,
    };
    if server_id == 0 {
        return Err(MsgError::ZeroServerId);
    }
    match read_trailer(reader, 59) {
        Err(err) => Err(err),
        Ok((user_data, cfg)) => Ok(
            LinkMsg::Welcome { extensions, public_key, server_id: ServerId(server_id), user_data, cfg },
        ),
    }
}

/// Reads a connect message.
fn read_connect(reader: &[u8]) -> (r: Result<LinkMsg, MsgError>)
    requires
        reader@.len() >= 1,
    ensures
        r is Ok <==> parse_connect(reader@) is Ok,
        r matches Ok(msg) ==> msg@ == parse_connect(reader@)->Ok_0,
        r matches Err(err) ==> err == parse_connect(reader@)->Err_0,
{
    match read_preamble(reader) {
        Err(err) => return Err(err),
        Ok(()) => {},
    }
    let extensions: u32 = match read_u32(reader, 7) {
        None => return Err(MsgError::TooShort),
        Some(extensions) => extensions,
    };
    let public_key: [u8; 32] = match read_key(reader, 11) {
        None => return Err(MsgError::TooShort),
        Some(public_key) => public_key,
    };
    let server_id: u128 = match read_u128(reader, 43) {
        None => return Err(MsgError::TooShort),
        Some(server_id) => server_id,
    };
    let connection_id: u128 = match read_u128(reader, 59) {
        None => return Err(MsgError::TooShort),
        Some(connection_id) => connection_id,
    };
    let existing_connection: u8 = match read_u8(reader, 75) {
        None => return Err(MsgError::TooShort),
        Some(existing_connection) => existing_connection,
    };
    match read_trailer(reader, 76) {
        Err(err) => Err(err),
        Ok((user_data, cfg)) => Ok(
            LinkMsg::Connect {
                extensions,
                public_key,
                server_id: if server_id == 0 {
                    None
                } else {
                    Some(ServerId(server_id))
                },
                connection_id: EncryptedConnId(connection_id),
                existing_connection: existing_connection != 0,
                user_data,
                cfg,
            },
        ),
    }
}

impl LinkMsg {
    /// Appends the encoded message.
    ///
    /// If the user data is too long, this fails after appending what precedes it.
    pub fn write(&self, writer: &mut Vec<u8>) -> (r: Result<(), UserDataTooLong>)
        ensures
            r is Ok <==> match self@ {
                MsgView::Welcome { user_data, .. } => user_data.len() <= u16::MAX,
                MsgView::Connect { user_data, .. } => user_data.len() <= u16::MAX,
                _ => true,
            },
            r is Ok ==> final(writer)@ == old(writer)@ + self@.bytes(),
            r is Err ==> final(writer)@ == old(writer)@ + self@.before_user_data(),
    {
        proof {
            reveal(MsgView::bytes);
        }
        match self {
            LinkMsg::Welcome { extensions, public_key, server_id, user_data, cfg } => {
                write_preamble(writer, 1);
                write_u32(writer, *extensions);
                write_all(writer, public_key);
                write_u128(writer, server_id.0);
                if user_data.len() > u16::MAX as usize {
                    assert(writer@ =~= old(writer)@ + self@.before_user_data());
                    return Err(UserDataTooLong);
                }
                write_u16(writer, user_data.len() as u16);
                write_all(writer, user_data);
                cfg.write(writer);
            },
            LinkMsg::Connect {
                extensions,
                public_key,
                server_id,
                connection_id,
                existing_connection,
                user_data,
                cfg,
            } => {
                write_preamble(writer, 2);
                write_u32(writer, *extensions);
                write_all(writer, public_key);
                write_u128(
                    writer,
                    match server_id {
                        Some(id) => id.0,
                        None => 0,
                    },
                );
                write_u128(writer, connection_id.0);
                write_u8(writer, flag_to_byte(*existing_connection));
                if user_data.len() > u16::MAX as usize {
                    assert(writer@ =~= old(writer)@ + self@.before_user_data());
                    return Err(UserDataTooLong);
                }
                write_u16(writer, user_data.len() as u16);
                write_all(writer, user_data);
                cfg.write(writer);
            },
            LinkMsg::Accepted => write_u8(writer, 3),
            LinkMsg::Refused { reason } => {
                write_u8(writer, 4);
                write_u8(writer, u8::from(*reason));
            },
            LinkMsg::Ping => write_u8(writer, 5),
            LinkMsg::Pong => write_u8(writer, 6),
            LinkMsg::Data { seq } => {
                write_u8(writer, 7);
                write_u32(writer, u32::from(*seq));
            },
            LinkMsg::Ack { received } => {
                write_u8(writer, 8);
                write_u32(writer, u32::from(*received));
            },
            LinkMsg::Consumed { seq, consumed } => {
                write_u8(writer, 9);
                write_u32(writer, u32::from(*seq));
                write_u32(writer, *consumed);
            },
            LinkMsg::SendFinish { seq } => {
                write_u8(writer, 10);
                write_u32(writer, u32::from(*seq));
            },
            LinkMsg::ReceiveClose { seq } => {
                write_u8(writer, 11);
                write_u32(writer, u32::from(*seq));
            },
            LinkMsg::ReceiveFinish { seq } => {
                write_u8(writer, 12);
                write_u32(writer, u32::from(*seq));
            },
            LinkMsg::TestData { size } => {
                write_u8(writer, 13);
                write_test_data(writer, *size);
            },
            LinkMsg::SetBlock { blocked } => {
                write_u8(writer, 14);
                write_u8(writer, flag_to_byte(*blocked));
            },
            LinkMsg::Goodbye => write_u8(writer, 15),
            LinkMsg::Terminate => write_u8(writer, 16),
        }
        assert(writer@ =~= old(writer)@ + self@.bytes());
        Ok(())
    }

    /// Reads a message.
    ///
    /// Bytes that follow the message are ignored.
    pub fn read(reader: &[u8]) -> (r: Result<Self, MsgError>)
        ensures
            r is Ok <==> MsgView::parse(reader@) is Ok,
            r matches Ok(msg) ==> msg@ == MsgView::parse(reader@)->Ok_0,
            r matches Err(err) ==> err == MsgView::parse(reader@)->Err_0,
    {
        let id: u8 = match read_u8(reader, 0) {
            None => return Err(MsgError::TooShort),
            Some(id) => id,
        };
        match id {
            1 => read_welcome(reader),
            2 => read_connect(reader),
            3 => Ok(LinkMsg::Accepted),
            4 => match read_u8(reader, 1) {
                None => Err(MsgError::TooShort),
                Some(reason) => match RefusedReason::from_id(reason) {
                    Err(err) => Err(err),
                    Ok(reason) => Ok(LinkMsg::Refused { reason }),
                },
            },
            5 => Ok(LinkMsg::Ping),
            6 => Ok(LinkMsg::Pong),
            7 | 8 | 9 | 10 | 11 | 12 => {
                let seq: SeqNum = match read_u32(reader, 1) {
                    None => return Err(MsgError::TooShort),
                    Some(seq) => SeqNum::from(seq),
                };
                match id {
                    7 => Ok(LinkMsg::Data { seq }),
                    8 => Ok(LinkMsg::Ack { received: seq }),
                    9 => match read_u32(reader, 5) {
                        None => Err(MsgError::TooShort),
                        Some(consumed) => Ok(LinkMsg::Consumed { seq, consumed }),
                    },
                    10 => Ok(LinkMsg::SendFinish { seq }),
                    11 => Ok(LinkMsg::ReceiveClose { seq }),
                    _ => Ok(LinkMsg::ReceiveFinish { seq }),
                }
            },
            13 => Ok(LinkMsg::TestData { size: reader.len() - 1 }),
            14 => match read_u8(reader, 1) {
                None => Err(MsgError::TooShort),
                Some(blocked) => Ok(LinkMsg::SetBlock { blocked: blocked != 0 }),
            },
            15 => Ok(LinkMsg::Goodbye),
            16 => Ok(LinkMsg::Terminate),
            other => Err(MsgError::InvalidId(other)),
        }
    }

    /// Encodes the message.
    pub fn encode(&self) -> (r: Bytes)
        requires
            match self@ {
                MsgView::Welcome { user_data, .. } => user_data.len() <= u16::MAX,
                MsgView::Connect { user_data, .. } => user_data.len() <= u16::MAX,
                _ => true,
            },
        ensures
            content(r) == self@.bytes(),
    {
        let mut buf: Vec<u8> = Vec::new();
        let _ = self.write(&mut buf);
        assert(buf@ =~= self@.bytes());
        bytes_from_vec(buf)
    }

    /// Length of the encoded message.
    #[verifier::opaque]
    pub open spec fn wire_len(self) -> nat {
        self@.bytes().len()
    }

    /// Length of the encoded message.
    pub fn encoded_len(&self) -> (r: usize)
        requires
            self.wire_len() <= usize::MAX,
        ensures
            r == self.wire_len(),
    {
        proof {
            reveal(LinkMsg::wire_len);
            lemma_msg_len(self@);
        }
        match self {
            LinkMsg::Welcome { user_data, .. } => 65 + user_data.len(),
            LinkMsg::Connect { user_data, .. } => 82 + user_data.len(),
            LinkMsg::Refused { .. } | LinkMsg::SetBlock { .. } => 2,
            LinkMsg::Data { .. }
            | LinkMsg::Ack { .. }
            | LinkMsg::SendFinish { .. }
            | LinkMsg::ReceiveClose { .. }
            | LinkMsg::ReceiveFinish { .. } => 5,
            LinkMsg::Consumed { .. } => 9,
            LinkMsg::TestData { size } => 1 + *size,
            LinkMsg::Accepted
            | LinkMsg::Ping
            | LinkMsg::Pong
            | LinkMsg::Goodbye
            | LinkMsg::Terminate => 1,
        }
    }
}

/// How long an encoded message is.
pub open spec fn msg_len(msg: MsgView) -> nat {
    match msg {
        MsgView::Welcome { public_key, user_data, .. } => 33 + public_key.len() + user_data.len(),
        MsgView::Connect { public_key, user_data, .. } => 50 + public_key.len() + user_data.len(),
        MsgView::Refused { .. } => 2,
        MsgView::SetBlock { .. } => 2,
        MsgView::Data { .. } => 5,
        MsgView::Ack { .. } => 5,
        MsgView::SendFinish { .. } => 5,
        MsgView::ReceiveClose { .. } => 5,
        MsgView::ReceiveFinish { .. } => 5,
        MsgView::Consumed { .. } => 9,
        MsgView::TestData { size } => 1 + size,
        _ => 1,
    }
}

/// The length of an encoded message follows from its kind and the data it carries.
pub proof fn lemma_msg_len(msg: MsgView)
    ensures
        msg.bytes().len() == msg_len(msg),
{
    reveal(MsgView::bytes);
    match msg {
        MsgView::Welcome { extensions, public_key, server_id, user_data, cfg } => {
            lemma_be_bytes_len(extensions as nat, 4);
            lemma_be_bytes_len(server_id.0 as nat, 16);
            lemma_be_bytes_len(user_data.len(), 2);
            lemma_be_bytes_len(cfg.recv_buffer as nat, 4);
        },
        MsgView::Connect { extensions, public_key, server_id, connection_id, user_data, cfg, .. } => {
            lemma_be_bytes_len(extensions as nat, 4);
            lemma_be_bytes_len(server_id_number(server_id), 16);
            lemma_be_bytes_len(connection_id.0 as nat, 16);
            lemma_be_bytes_len(user_data.len(), 2);
            lemma_be_bytes_len(cfg.recv_buffer as nat, 4);
        },
        MsgView::Data { seq }
        | MsgView::SendFinish { seq }
        | MsgView::ReceiveClose { seq }
        | MsgView::ReceiveFinish { seq }
        | MsgView::Ack { received: seq } => {
            lemma_be_bytes_len(seq.0 as nat, 4);
        },
        MsgView::Consumed { seq, consumed } => {
            lemma_be_bytes_len(seq.0 as nat, 4);
            lemma_be_bytes_len(consumed as nat, 4);
        },
        _ => {},
    }
}

/// The user data does not fit into a message.
#[derive(Debug, Clone, Copy, PartialEq, Eq, Structural)]
pub struct UserDataTooLong;

impl UserDataTooLong {
    /// Text describing this error.
    pub fn text(&self) -> (r: String)
        ensures
            r@ == "user data is too long"@,
    {
        "user data is too long".to_string()
    }

    /// Category of this error as an IO error.
    pub fn kind(&self) -> (r: ErrorKind)
        ensures
            r == ErrorKind::InvalidData,
    {
        ErrorKind::InvalidData
    }
}

/// Appends the content of a test data message.
fn write_test_data(writer: &mut Vec<u8>, size: usize)
    ensures
        final(writer)@ == old(writer)@ + test_data(size as nat),
{
    let mut n: usize = 0;
    assert(writer@ =~= old(writer)@ + test_data(0));
    while n < size
        invariant
            n <= size,
            writer@ == old(writer)@ + test_data(n as nat),
        decreases size - n,
    {
        write_u8(writer, (n % 256) as u8);
        n += 1;
        assert(writer@ =~= old(writer)@ + test_data(n as nat));
    }
}

/// A reliable message.
///
/// Its reception must be acknowledged by the receiver and it will be resent if lost.
#[derive(Debug, Clone)]
pub enum ReliableMsg {
    /// Data.
    Data(Bytes),
    /// Received data was consumed.
    Consumed(u32),
    /// No more data will be sent.
    SendFinish,
    /// Not interested in receiving any more data,
    /// but already sent data will still be processed.
    ReceiveClose,
    /// No more received data will be processed.
    ReceiveFinish,
}

impl ReliableMsg {
    /// Number of bytes of data that this message carries.
    pub open spec fn spec_size(self) -> nat {
        match self {
            ReliableMsg::Data(data) => content(data).len(),
            _ => 0,
        }
    }

    /// Number of bytes of data that this message carries.
    pub fn size(&self) -> (r: usize)
        ensures
            r == self.spec_size(),
    {
        match self {
            ReliableMsg::Data(data) => data.len(),
            _ => 0,
        }
    }

    /// A copy of this message.
    pub fn duplicate(&self) -> (r: Self)
        ensures
            r == *self,
    {
        match self {
            ReliableMsg::Data(data) => ReliableMsg::Data(data.clone()),
            ReliableMsg::Consumed(n) => ReliableMsg::Consumed(*n),
            ReliableMsg::SendFinish => ReliableMsg::SendFinish,
            ReliableMsg::ReceiveClose => ReliableMsg::ReceiveClose,
            ReliableMsg::ReceiveFinish => ReliableMsg::ReceiveFinish,
        }
    }

    /// The link message that carries this message with the specified sequence number.
    pub open spec fn link_msg(self, seq: SeqNum) -> LinkMsg {
        match self {
            ReliableMsg::Data(data) => LinkMsg::Data { seq },
            ReliableMsg::Consumed(consumed) => LinkMsg::Consumed { seq, consumed },
            ReliableMsg::SendFinish => LinkMsg::SendFinish { seq },
            ReliableMsg::ReceiveClose => LinkMsg::ReceiveClose { seq },
            ReliableMsg::ReceiveFinish => LinkMsg::ReceiveFinish { seq },
        }
    }

    /// The data packet that follows the link message.
    pub open spec fn link_data(self) -> Option<Bytes> {
        match self {
            ReliableMsg::Data(data) => Some(data),
            _ => None,
        }
    }

    /// Convert to link message.
    pub fn to_link_msg(&self, seq: SeqNum) -> (r: (LinkMsg, Option<Bytes>))
        ensures
            r.0 == self.link_msg(seq),
            r.1 == self.link_data(),
    {
        match self {
            ReliableMsg::Data(data) => (LinkMsg::Data { seq }, Some(data.clone())),
            ReliableMsg::Consumed(n) => (LinkMsg::Consumed { seq, consumed: *n }, None),
            ReliableMsg::SendFinish => (LinkMsg::SendFinish { seq }, None),
            ReliableMsg::ReceiveClose => (LinkMsg::ReceiveClose { seq }, None),
            ReliableMsg::ReceiveFinish => (LinkMsg::ReceiveFinish { seq }, None),
        }
    }

    /// The reliable message and sequence number carried by a link message and data packet.
    ///
    /// `None` if the link message does not carry a reliable message or its data is missing.
    pub open spec fn of_link_msg(msg: LinkMsg, data: Option<Bytes>) -> Option<(ReliableMsg, SeqNum)> {
        match msg {
            LinkMsg::Data { seq } => match data {
                Some(data) => Some((ReliableMsg::Data(data), seq)),
                None => None,
            },
            LinkMsg::Consumed { seq, consumed } => Some((ReliableMsg::Consumed(consumed), seq)),
            LinkMsg::SendFinish { seq } => Some((ReliableMsg::SendFinish, seq)),
            LinkMsg::ReceiveClose { seq } => Some((ReliableMsg::ReceiveClose, seq)),
            LinkMsg::ReceiveFinish { seq } => Some((ReliableMsg::ReceiveFinish, seq)),
            _ => None,
        }
    }

    /// Convert from link message.
    ///
    /// Returns `None` if the link message does not carry a reliable message or its data is missing.
    pub fn from_link_msg(msg: LinkMsg, data: Option<Bytes>) -> (r: Option<(Self, SeqNum)>)
        ensures
            r == ReliableMsg::of_link_msg(msg, data),
    {
        match msg {
            LinkMsg::Data { seq } => match data {
                Some(data) => Some((ReliableMsg::Data(data), seq)),
                None => None,
            },
            LinkMsg::Consumed { seq, consumed } => Some((ReliableMsg::Consumed(consumed), seq)),
            LinkMsg::SendFinish { seq } => Some((ReliableMsg::SendFinish, seq)),
            LinkMsg::ReceiveClose { seq } => Some((ReliableMsg::ReceiveClose, seq)),
            LinkMsg::ReceiveFinish { seq } => Some((ReliableMsg::ReceiveFinish, seq)),
            _ => None,
        }
    }
}

/// A reliable message survives the conversion to a link message and back.
pub proof fn law_reliable_roundtrip(msg: ReliableMsg, seq: SeqNum)
    ensures
        ReliableMsg::of_link_msg(msg.link_msg(seq), msg.link_data()) == Some((msg, seq)),
{
}

/// What is not a message of this protocol is refused: an unknown kind of message, and the establishment of a link with
/// another protocol or another version of it.
pub proof fn law_foreign_messages_are_refused(b: Seq<u8>)
    ensures
        ({
            let r = MsgView::parse(b);
            let establishing = b.len() > 0 && (b[0] == 1 || b[0] == 2);
            let letters = b[1] == 76 && b[2] == 73 && b[3] == 65 && b[4] == 71 && b[5] == 0;
            &&& (b.len() == 0 ==> r == Err::<MsgView, MsgError>(MsgError::TooShort))
            &&& (b.len() > 0 && (b[0] == 0 || b[0] > 16) ==> r == Err::<MsgView, MsgError>(MsgError::InvalidId(b[0])))
            &&& (establishing && b.len() >= 6 && !letters ==> r == Err::<MsgView, MsgError>(MsgError::InvalidMagic))
            &&& (establishing && b.len() >= 7 && letters && b[6] != 4 ==> r == Err::<MsgView, MsgError>(
                MsgError::InvalidVersion(b[6]),
            ))
            &&& (establishing && r is Ok ==> b.len() >= 59 && letters && b[6] == 4)
            &&& (b.len() >= 59 && b[0] == 1 && letters && b[6] == 4 && be_value(b.subrange(43, 59)) == 0 ==> r == Err::<
                MsgView,
                MsgError,
            >(MsgError::ZeroServerId))
            &&& (b.len() > 0 && 7 <= b[0] <= 12 && b.len() < 5 ==> r is Err)
            &&& (r matches Ok(m) ==> (m is Welcome <==> b[0] == 1) && (m is Connect <==> b[0] == 2))
        }),
{
    if b.len() >= 6 {
        let part = b.subrange(1, 6);
        assert(part[0] == b[1] && part[1] == b[2] && part[2] == b[3] && part[3] == b[4] && part[4] == b[5]);
        let m = magic();
        assert(m[0] == 76 && m[1] == 73 && m[2] == 65 && m[3] == 71 && m[4] == 0);
        if b[1] == 76 && b[2] == 73 && b[3] == 65 && b[4] == 71 && b[5] == 0 {
            assert(part =~= m);
        }
    }
}

/// Only data counts towards the size of what is sent, by its length, and only data is followed by a packet.
pub proof fn law_size_is_that_of_data(msg: ReliableMsg)
    ensures
        msg matches ReliableMsg::Data(data) ==> msg.spec_size() == content(data).len() && msg.link_data() == Some(data),
        !(msg is Data) ==> msg.spec_size() == 0 && msg.link_data() is None,
{
}

} // verus!
