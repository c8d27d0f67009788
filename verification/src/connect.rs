//! Establishing new incoming and outgoing connections.

use crate::agg::termination::FatalConnectError;
use crate::cfg::{Cfg, ExchangedCfg};
use crate::control::AddLinkError;
use crate::error::{ErrorKind, Expected, LinkError};
use crate::id::{conn_id_key, ConnId, EncryptedConnId, ServerId};
use crate::key::{public_key_of, x25519, SecretKey};
use crate::msg::{LinkMsg, MsgView, RefusedReason};
use crate::text::join;
use std::collections::HashMap;
use vstd::prelude::*;

verus! {

broadcast use vstd::std_specs::hash::group_hash_axioms;

/// Listen error.
#[derive(Debug, Clone, Copy, PartialEq, Eq, Structural)]
pub enum ListenError {
    /// A listener for the server already exists.
    AlreadyListening,
}

impl ListenError {
    /// Text describing this error.
    pub fn text(&self) -> (r: String)
        ensures
            r@ == "already listening"@,
    {
        "already listening".to_string()
    }

    /// Category of this error as an IO error.
    pub fn kind(&self) -> (r: ErrorKind)
        ensures
            r == ErrorKind::AddrInUse,
    {
        ErrorKind::AddrInUse
    }
}

/// Incoming link error.
#[derive(Debug, Clone, PartialEq, Eq)]
pub enum IncomingError {
    /// Sending or receiving over the link failed.
    Io(LinkError),
    /// The incoming connection was refused by the listener.
    Refused,
    /// No listener is present to handle the incoming connection.
    NotListening,
    /// The incoming link belonged to an already closed connection.
    Closed,
    /// The link aggregator server was dropped.
    ServerDropped,
}

impl IncomingError {
    /// Text describing this error.
    pub open spec fn describe(self) -> Seq<char> {
        match self {
            IncomingError::Io(err) => "IO error: "@ + err.describe(),
            IncomingError::Refused => "connection refused"@,
            IncomingError::NotListening => "not listening"@,
            IncomingError::Closed => "connection was closed"@,
            IncomingError::ServerDropped => "server dropped"@,
        }
    }

    /// Text describing this error.
    pub fn text(&self) -> (r: String)
        ensures
            r@ == self.describe(),
    {
        match self {
            IncomingError::Io(err) => join("IO error: ", err.text().as_str()),
            IncomingError::Refused => "connection refused".to_string(),
            IncomingError::NotListening => "not listening".to_string(),
            IncomingError::Closed => "connection was closed".to_string(),
            IncomingError::ServerDropped => "server dropped".to_string(),
        }
    }

    /// Category of this error as an IO error.
    ///
    /// `None` if the underlying transport failed, which then has its own category.
    pub fn kind(&self) -> (r: Option<ErrorKind>)
        ensures
            r == match *self {
                IncomingError::Io(err) => err.category(),
                IncomingError::Closed => Some(ErrorKind::ConnectionAborted),
                _ => Some(ErrorKind::ConnectionRefused),
            },
    {
        match self {
            IncomingError::Io(err) => err.kind(),
            IncomingError::Closed => Some(ErrorKind::ConnectionAborted),
            _ => Some(ErrorKind::ConnectionRefused),
        }
    }
}

/// Outgoing connection error.
#[derive(Debug, Clone, Copy, PartialEq, Eq, Structural)]
pub enum ConnectError {
    /// No working link was established during the configured timeout.
    Timeout,
}

impl ConnectError {
    /// Text describing this error.
    pub fn text(&self) -> (r: String)
        ensures
            r@ == "connect timeout"@,
    {
        "connect timeout".to_string()
    }

    /// Category of this error as an IO error.
    pub fn kind(&self) -> (r: ErrorKind)
        ensures
            r == ErrorKind::TimedOut,
    {
        ErrorKind::TimedOut
    }
}

/// Status of the place in the queue of the listener that a new connection needs.
#[derive(Debug, Clone, Copy, PartialEq, Eq, Structural)]
pub enum ListenPermit {
    /// It has not been requested.
    NotRequested,
    /// It has been granted.
    Granted,
    /// There is no listener.
    NotListening,
}

/// What to do with an incoming link.
#[derive(Debug, Clone, Copy, PartialEq, Eq, Structural)]
pub enum Route {
    /// Link joins existing connection.
    Existing,
    /// Link belongs to new, incoming connection.
    New,
    /// A place in the queue of the listener must be requested before deciding.
    NeedPermit,
    /// Link cannot be accepted.
    Refuse(RefusedReason),
}

/// The connections of a server.
///
/// Each connection has a handle by which links are added to it.
pub struct ServerInner<L> {
    /// Handles of the connections.
    conns: HashMap<u128, L>,
}

impl<L> View for ServerInner<L> {
    type V = Map<u128, L>;

    closed spec fn view(&self) -> Map<u128, L> {
        self.conns@
    }
}

/// What to do with a link of a connection that the server knows.
///
/// `closed` says whether that connection has ended and cannot take the link.
pub fn route_known(closed: bool) -> (r: Route)
    ensures
        r == route_of(true, closed, true, ListenPermit::NotRequested),
{
    if closed {
        Route::Refuse(RefusedReason::Closed)
    } else {
        Route::Existing
    }
}

/// What to do with a link of the specified connection.
pub open spec fn route_of(known: bool, closed: bool, existing: bool, permit: ListenPermit) -> Route {
    if known && closed {
        Route::Refuse(RefusedReason::Closed)
    } else if known {
        Route::Existing
    } else if existing {
        Route::Refuse(RefusedReason::Closed)
    } else {
        match permit {
            ListenPermit::NotRequested => Route::NeedPermit,
            ListenPermit::Granted => Route::New,
            ListenPermit::NotListening => Route::Refuse(RefusedReason::NotListening),
        }
    }
}

/// The connections without the specified ones.
pub open spec fn without_conns<L>(conns: Map<u128, L>, closed: Seq<ConnId>) -> Map<u128, L>
    decreases closed.len(),
{
    if closed.len() == 0 {
        conns
    } else {
        without_conns(conns, closed.drop_last()).remove(closed.last().0)
    }
}

impl<L> ServerInner<L> {
    /// Creates a server without connections.
    pub fn new() -> (r: Self)
        ensures
            r@ == Map::<u128, L>::empty(),
    {
        ServerInner { conns: HashMap::new() }
    }

    /// Adds a connection.
    pub fn insert(&mut self, conn_id: ConnId, handle: L)
        ensures
            final(self)@ == old(self)@.insert(conn_id.0, handle),
    {
        self.conns.insert(conn_id.0, handle);
    }

    /// Handle of the specified connection.
    pub fn get(&self, conn_id: ConnId) -> (r: Option<&L>)
        ensures
            r == if self@.dom().contains(conn_id.0) {
                Some(&self@[conn_id.0])
            } else {
                None
            },
    {
        self.conns.get(&conn_id.0)
    }

    /// Clean up closed connections.
    pub fn cleanup_links(&mut self, closed: &Vec<ConnId>)
        ensures
            final(self)@ == without_conns(old(self)@, closed@),
    {
        let ghost before = self@;
        let mut i: usize = 0;
        assert(closed@.take(0) =~= Seq::empty());
        while i < closed.len()
            invariant
                i <= closed@.len(),
                self@ == without_conns(before, closed@.take(i as int)),
            decreases closed@.len() - i,
        {
            assert(closed@.take(i + 1).drop_last() =~= closed@.take(i as int));
            self.conns.remove(&closed[i].0);
            i += 1;
        }
        assert(closed@.take(i as int) =~= closed@);
    }

    /// Decides what to do with an incoming link.
    ///
    /// `closed` says whether the handle of the connection, if there is one, is closed, because the
    /// connection has ended. `existing` says whether the remote endpoint expects the connection to exist.
    pub fn route(&self, conn_id: ConnId, closed: bool, existing: bool, permit: ListenPermit) -> (r: Route)
        ensures
            r == route_of(self@.dom().contains(conn_id.0), closed, existing, permit),
    {
        if self.conns.contains_key(&conn_id.0) {
            route_known(closed)
        } else if existing {
            Route::Refuse(RefusedReason::Closed)
        } else {
            match permit {
                ListenPermit::NotRequested => Route::NeedPermit,
                ListenPermit::Granted => Route::New,
                ListenPermit::NotListening => Route::Refuse(RefusedReason::NotListening),
            }
        }
    }
}

/// The place for the listener of a server.
#[derive(Debug, Clone, Copy, PartialEq, Eq, Structural)]
pub struct ListenerSlot {
    /// Id of the server.
    pub server_id: ServerId,
    /// Whether a listener exists.
    pub listening: bool,
}

impl ListenerSlot {
    /// Creates a place without listener.
    pub fn new(server_id: ServerId) -> (r: Self)
        ensures
            r == slot_after_all(server_id, Seq::empty()),
    {
        ListenerSlot { server_id, listening: false }
    }

    /// Creates a listener, unless there already is one.
    ///
    /// Returns the server id of the listener.
    pub fn listen(&mut self) -> (r: Result<ServerId, ListenError>)
        ensures
            r == listen_outcome(*old(self)),
            *final(self) == slot_after(*old(self), ListenerStep::Listen),
    {
        if self.listening {
            Err(ListenError::AlreadyListening)
        } else {
            self.listening = true;
            Ok(self.server_id)
        }
    }

    /// Notes that the listener has been dropped.
    pub fn dropped(&mut self)
        ensures
            *final(self) == slot_after(*old(self), ListenerStep::Dropped),
    {
        self.listening = false;
    }
}

/// What happens to the listener of a server.
#[derive(Debug, Clone, Copy, PartialEq, Eq, Structural)]
pub enum ListenerStep {
    /// A listener is requested.
    Listen,
    /// The listener is dropped.
    Dropped,
}

/// Outcome of requesting a listener.
pub open spec fn listen_outcome(slot: ListenerSlot) -> Result<ServerId, ListenError> {
    if slot.listening {
        Err(ListenError::AlreadyListening)
    } else {
        Ok(slot.server_id)
    }
}

/// The place for the listener after a step.
pub open spec fn slot_after(slot: ListenerSlot, step: ListenerStep) -> ListenerSlot {
    ListenerSlot { listening: step == ListenerStep::Listen, ..slot }
}

/// The place for the listener of a new server after several steps.
pub open spec fn slot_after_all(server_id: ServerId, steps: Seq<ListenerStep>) -> ListenerSlot
    decreases steps.len(),
{
    if steps.len() == 0 {
        ListenerSlot { server_id, listening: false }
    } else {
        slot_after(slot_after_all(server_id, steps.drop_last()), steps.last())
    }
}

/// Whether a listener was requested and has not been dropped since then.
pub open spec fn listener_alive(steps: Seq<ListenerStep>) -> bool {
    exists|k: int|
        #![trigger steps[k]]
        {
            &&& 0 <= k < steps.len()
            &&& steps[k] == ListenerStep::Listen
            &&& forall|j: int| k < j < steps.len() ==> #[trigger] steps[j] != ListenerStep::Dropped
        }
}

/// A listener is refused exactly while an earlier one is alive. Otherwise it has the id of the server.
pub proof fn law_one_listener(server_id: ServerId, steps: Seq<ListenerStep>)
    ensures
        listen_outcome(slot_after_all(server_id, steps)) == if listener_alive(steps) {
            Err::<ServerId, ListenError>(ListenError::AlreadyListening)
        } else {
            Ok(server_id)
        },
        slot_after_all(server_id, steps).server_id == server_id,
    decreases steps.len(),
{
    if steps.len() > 0 {
        let last = steps.len() - 1;
        assert(steps[last] == steps.last());
        law_one_listener(server_id, steps.drop_last());
    }
}

/// Error reported for an incoming link that was refused for the specified reason.
pub fn refused_error(reason: RefusedReason) -> (r: IncomingError)
    ensures
        r == match reason {
            RefusedReason::Closed => IncomingError::Closed,
            RefusedReason::NotListening => IncomingError::NotListening,
            RefusedReason::ConnectionRefused | RefusedReason::LinkRefused => IncomingError::Refused,
        },
{
    match reason {
        RefusedReason::Closed => IncomingError::Closed,
        RefusedReason::NotListening => IncomingError::NotListening,
        RefusedReason::ConnectionRefused | RefusedReason::LinkRefused => IncomingError::Refused,
    }
}

/// A link of a closed connection is refused, if the remote endpoint expects the connection to exist.
pub proof fn law_closed_connection_refused<L>(
    conns: Map<u128, L>,
    closed: Seq<ConnId>,
    conn_id: ConnId,
    handle_closed: bool,
    permit: ListenPermit,
)
    requires
        closed.contains(conn_id),
    ensures
        !without_conns(conns, closed).dom().contains(conn_id.0),
        route_of(without_conns(conns, closed).dom().contains(conn_id.0), handle_closed, true, permit)
            == Route::Refuse(RefusedReason::Closed),
    decreases closed.len(),
{
    if closed.last() != conn_id {
        let k = choose|k: int| 0 <= k < closed.len() && closed[k] == conn_id;
        assert(closed.drop_last()[k] == conn_id);
        law_closed_connection_refused(conns, closed.drop_last(), conn_id, handle_closed, permit);
    }
}

/// A link of a connection that has ended but not been cleaned up yet is refused, whatever the remote
/// endpoint expects and whether there is a listener or not.
pub proof fn law_ended_connection_refused(existing: bool, permit: ListenPermit)
    ensures
        route_of(true, true, existing, permit) == Route::Refuse(RefusedReason::Closed),
{
}

/// A link joins a connection that was added and has not ended, whatever the remote endpoint
/// expects and whether there is a listener or not.
pub proof fn law_known_connection_joined<L>(
    conns: Map<u128, L>,
    conn_id: ConnId,
    handle: L,
    closed: Seq<ConnId>,
    existing: bool,
    permit: ListenPermit,
)
    requires
        forall|k: int| 0 <= k < closed.len() ==> (#[trigger] closed[k]).0 != conn_id.0,
    ensures
        without_conns(conns.insert(conn_id.0, handle), closed).dom().contains(conn_id.0),
        without_conns(conns.insert(conn_id.0, handle), closed)[conn_id.0] == handle,
        route_of(
            without_conns(conns.insert(conn_id.0, handle), closed).dom().contains(conn_id.0),
            false,
            existing,
            permit,
        ) == Route::Existing,
    decreases closed.len(),
{
    if closed.len() > 0 {
        assert(closed[closed.len() - 1].0 != conn_id.0);
        assert forall|k: int| 0 <= k < closed.drop_last().len() implies (#[trigger] closed.drop_last()[k]).0
            != conn_id.0 by {
            assert(closed.drop_last()[k] == closed[k]);
        }
        law_known_connection_joined(conns, conn_id, handle, closed.drop_last(), existing, permit);
    }
}

/// What the client sent to establish a link.
#[derive(Debug)]
pub struct ConnectRequest {
    /// Server id of the remote endpoint, if it accepts incoming connections.
    pub remote_server_id: Option<ServerId>,
    /// Connection to which the link belongs.
    pub conn_id: ConnId,
    /// Whether the connection must already exist.
    pub existing: bool,
    /// Configuration of the remote endpoint.
    pub remote_cfg: ExchangedCfg,
    /// User data of the remote endpoint.
    pub remote_user_data: Vec<u8>,
}

/// Server side of the establishment of a link.
pub struct IncomingHandshake {
    /// Secret key for this link.
    pub secret: SecretKey,
    /// Server id.
    pub server_id: ServerId,
    /// Configuration of the server.
    pub cfg: ExchangedCfg,
}

impl IncomingHandshake {
    /// Starts the establishment of an incoming link with a new secret key.
    pub fn start(server_id: ServerId, cfg: &Cfg) -> (r: Self)
        ensures
            r.secret@.len() == 32,
            r.server_id == server_id,
            r.cfg.recv_buffer == cfg.recv_buffer,
    {
        IncomingHandshake { secret: SecretKey::generate(), server_id, cfg: ExchangedCfg::from(cfg) }
    }

    /// The message by which the client is welcomed.
    pub fn welcome(&self, user_data: Vec<u8>) -> (r: LinkMsg)
        requires
            user_data@.len() <= u16::MAX,
        ensures
            r@ == (MsgView::Welcome {
                extensions: 0,
                public_key: public_key_of(self.secret@),
                server_id: self.server_id,
                user_data: user_data@,
                cfg: self.cfg,
            }),
    {
        LinkMsg::Welcome {
            extensions: 0,
            public_key: self.secret.public_key(),
            server_id: self.server_id,
            user_data,
            cfg: self.cfg,
        }
    }

    /// Handles the reply of the client.
    ///
    /// The connection identifier is that which the client encrypted, if it used the public key
    /// of its secret key.
    pub fn on_reply(&self, reply: LinkMsg) -> (r: Result<ConnectRequest, IncomingError>)
        ensures
            r is Ok <==> reply is Connect,
            r matches Err(err) ==> err == IncomingError::Io(LinkError::Unexpected(Expected::Connect)),
            r matches Ok(req) ==> reply@ matches MsgView::Connect {
                public_key,
                server_id,
                connection_id,
                existing_connection,
                user_data,
                cfg,
                ..
            } && {
                &&& req.remote_server_id == server_id
                &&& req.conn_id.0 == connection_id.0 ^ conn_id_key(x25519(self.secret@, public_key))
                &&& req.existing == existing_connection
                &&& req.remote_cfg == cfg
                &&& req.remote_user_data@ == user_data
                &&& forall|client: Seq<u8>, conn_id: ConnId|
                    #![trigger public_key_of(client), conn_id.0]
                    {
                        &&& client.len() == 32
                        &&& public_key == public_key_of(client)
                        &&& connection_id.0 == conn_id.0 ^ conn_id_key(x25519(client, public_key_of(self.secret@)))
                    } ==> req.conn_id == conn_id
            },
    {
        match reply {
            LinkMsg::Connect {
                public_key,
                server_id,
                connection_id,
                existing_connection,
                user_data,
                cfg,
                ..
            } => {
                let shared: [u8; 32] = self.secret.shared_secret(&public_key);
                let conn_id: ConnId = connection_id.decrypt(&shared);
                assert forall|client: Seq<u8>, id: ConnId|
                    #![trigger public_key_of(client), id.0]
                    client.len() == 32 && public_key@ == public_key_of(client) && connection_id.0 == id.0
                        ^ conn_id_key(x25519(client, public_key_of(self.secret@))) implies conn_id == id by {
                    crate::id::law_decrypt_inverts_encrypt(id, shared@);
                }
                Ok(
                    ConnectRequest {
                        remote_server_id: server_id,
                        conn_id,
                        existing: existing_connection,
                        remote_cfg: cfg,
                        remote_user_data: user_data,
                    },
                )
            },
            _ => Err(IncomingError::Io(LinkError::Unexpected(Expected::Connect))),
        }
    }
}

/// What the server sent to establish a link.
#[derive(Debug)]
pub struct Welcomed {
    /// Message by which the link is established.
    pub connect: LinkMsg,
    /// Server id of the remote endpoint.
    pub remote_server_id: ServerId,
    /// Configuration of the remote endpoint.
    pub remote_cfg: ExchangedCfg,
    /// User data of the remote endpoint.
    pub remote_user_data: Vec<u8>,
}

/// Client side of the establishment of a link.
pub struct OutgoingHandshake {
    /// Secret key for this link.
    pub secret: SecretKey,
    /// Connection to which the link belongs.
    pub conn_id: ConnId,
    /// Server id of the local endpoint, if it accepts incoming connections.
    pub server_id: Option<ServerId>,
    /// Server to which the other links of the connection are connected, if known.
    pub remote_server_id: Option<ServerId>,
    /// Whether the connection has already been established.
    pub connected: bool,
    /// Configuration of the client.
    pub cfg: ExchangedCfg,
}

impl OutgoingHandshake {
    /// Starts the establishment of an outgoing link with a new secret key.
    pub fn start(
        conn_id: ConnId,
        server_id: Option<ServerId>,
        remote_server_id: Option<ServerId>,
        connected: bool,
        cfg: &Cfg,
    ) -> (r: Self)
        ensures
            r.secret@.len() == 32,
            r.conn_id == conn_id,
            r.server_id == server_id,
            r.remote_server_id == remote_server_id,
            r.connected == connected,
            r.cfg.recv_buffer == cfg.recv_buffer,
    {
        OutgoingHandshake {
            secret: SecretKey::generate(),
            conn_id,
            server_id,
            remote_server_id,
            connected,
            cfg: ExchangedCfg::from(cfg),
        }
    }

    /// Handles the welcome message of the server.
    ///
    /// All links of a connection must be connected to the same server.
    pub fn on_welcome(&self, welcome: LinkMsg, user_data: Vec<u8>) -> (r: Result<Welcomed, AddLinkError>)
        requires
            user_data@.len() <= u16::MAX,
        ensures
            match welcome@ {
                MsgView::Welcome { public_key, server_id, user_data: remote_user_data, cfg, .. } => {
                    match self.remote_server_id {
                        Some(expected) if expected != server_id => r == Err::<Welcomed, AddLinkError>(
                            AddLinkError::ServerIdMismatch { expected, present: server_id },
                        ),
                        _ => r matches Ok(welcomed) && {
                            &&& welcomed.remote_server_id == server_id
                            &&& welcomed.remote_cfg == cfg
                            &&& welcomed.remote_user_data@ == remote_user_data
                            &&& welcomed.connect@ == (MsgView::Connect {
                                extensions: 0,
                                public_key: public_key_of(self.secret@),
                                server_id: self.server_id,
                                connection_id: EncryptedConnId(
                                    self.conn_id.0 ^ conn_id_key(x25519(self.secret@, public_key)),
                                ),
                                existing_connection: self.connected,
                                user_data: user_data@,
                                cfg: self.cfg,
                            })
                        },
                    }
                },
                _ => r == Err::<Welcomed, AddLinkError>(AddLinkError::Io(LinkError::Unexpected(Expected::Welcome))),
            },
    {
        match welcome {
            LinkMsg::Welcome { public_key, server_id, user_data: remote_user_data, cfg, .. } => {
                if let Some(expected) = self.remote_server_id {
                    if expected != server_id {
                        return Err(AddLinkError::ServerIdMismatch { expected, present: server_id });
                    }
                }
                let shared: [u8; 32] = self.secret.shared_secret(&public_key);
                Ok(
                    Welcomed {
                        connect: LinkMsg::Connect {
                            extensions: 0,
                            public_key: self.secret.public_key(),
                            server_id: self.server_id,
                            connection_id: EncryptedConnId::new(self.conn_id, &shared),
                            existing_connection: self.connected,
                            user_data,
                            cfg: self.cfg,
                        },
                        remote_server_id: server_id,
                        remote_cfg: cfg,
                        remote_user_data,
                    },
                )
            },
            _ => Err(AddLinkError::Io(LinkError::Unexpected(Expected::Welcome))),
        }
    }

    /// Handles the reply of the server to the request to establish the link.
    pub fn on_reply(reply: &LinkMsg) -> (r: Result<(), AddLinkError>)
        ensures
            match *reply {
                LinkMsg::Accepted => r is Ok,
                LinkMsg::Refused { reason } => r == Err::<(), AddLinkError>(
                    match reason {
                        RefusedReason::Closed => AddLinkError::ConnectionClosed,
                        RefusedReason::NotListening => AddLinkError::NotListening,
                        RefusedReason::ConnectionRefused => AddLinkError::ConnectionRefused,
                        RefusedReason::LinkRefused => AddLinkError::LinkRefused,
                    },
                ),
                _ => r == Err::<(), AddLinkError>(AddLinkError::Io(LinkError::Unexpected(Expected::Reply))),
            },
    {
        match reply {
            LinkMsg::Accepted => Ok(()),
            LinkMsg::Refused { reason } => Err(AddLinkError::from(*reason)),
            _ => Err(AddLinkError::Io(LinkError::Unexpected(Expected::Reply))),
        }
    }
}

/// The error that ends the whole connection when a link could not be added, if any.
///
/// `connected` says whether the connection has already been established and `working` whether any of its
/// links is working. While a link is working, a server that reports the connection to be closed does not
/// end it.
pub fn fatal_connect_error(err: &AddLinkError, cfg: &Cfg, connected: bool, working: bool) -> (r: Option<
    FatalConnectError,
>)
    ensures
        r == match *err {
            AddLinkError::ServerIdMismatch { .. } if cfg.disconnect_on_server_id_mismatch => Some(
                FatalConnectError::ServerIdMismatch,
            ),
            AddLinkError::ConnectionClosed if connected && !working => Some(FatalConnectError::Closed),
            _ => None,
        },
{
    match err {
        AddLinkError::ServerIdMismatch { .. } if cfg.disconnect_on_server_id_mismatch => Some(
            FatalConnectError::ServerIdMismatch,
        ),
        AddLinkError::ConnectionClosed if connected && !working => Some(FatalConnectError::Closed),
        _ => None,
    }
}

/// A new connection is made exactly if a link belongs to none that is known, the remote endpoint does not expect it to
/// exist and the listener has a place for it. Before deciding that, a place is asked for; without a listener the link
/// is refused.
pub proof fn law_new_connection_needs_listener(known: bool, closed: bool, existing: bool, permit: ListenPermit)
    ensures
        ({
            let r = route_of(known, closed, existing, permit);
            &&& r == Route::New <==> !known && !existing && permit == ListenPermit::Granted
            &&& r == Route::NeedPermit <==> !known && !existing && permit == ListenPermit::NotRequested
            &&& r == Route::Existing <==> known && !closed
            &&& r == Route::Refuse(RefusedReason::NotListening) <==> !known && !existing && permit
                == ListenPermit::NotListening
            &&& r == Route::Refuse(RefusedReason::Closed) <==> known && closed || !known && existing
        }),
{
}

/// Cleaning up removes the closed connections and keeps all others.
pub proof fn law_cleanup_keeps_open_connections<L>(conns: Map<u128, L>, closed: Seq<ConnId>, id: u128)
    ensures
        without_conns(conns, closed).dom().contains(id) <==> conns.dom().contains(id) && !closed.contains(ConnId(id)),
        without_conns(conns, closed).dom().contains(id) ==> without_conns(conns, closed)[id] == conns[id],
    decreases closed.len(),
{
    if closed.len() > 0 {
        let front = closed.drop_last();
        law_cleanup_keeps_open_connections(conns, front, id);
        if front.contains(ConnId(id)) {
            let k = choose|k: int| 0 <= k < front.len() && front[k] == ConnId(id);
            assert(closed[k] == ConnId(id));
        }
        if closed.contains(ConnId(id)) && closed.last().0 != id {
            let k = choose|k: int| 0 <= k < closed.len() && closed[k] == ConnId(id);
            assert(front[k] == ConnId(id));
        }
        assert(closed[closed.len() - 1] == closed.last());
    }
}

} // verus!
