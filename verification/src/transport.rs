//! Transport: what the library does around renet over netcode. Sockets and
//! the netcode handshake are the embedder's: it hands over what came off the
//! wire with [`Server::deliver`] and sends what [`Server::take_outgoing`]
//! hands back.
//!
//! Inbound path, in order: transport limits, decode, direction check,
//! structural validation. Only what passes all four comes out as
//! [`Inbound::Message`]; everything else is surfaced as [`Inbound::Rejected`]
//! with a stable [`reason_code`].
pub mod channels;
pub mod client;
pub mod laws;
pub mod limits;
pub mod meter;
pub mod token;

use crate::codec::format::encoding;
use crate::codec::{decode, decoded, encode, WireError};
use crate::schema::{Message, MessageView};
use crate::validate::{guard_after, validate, verdict, ClientGuard, GuardView, Reject};
pub use client::Client;

use channels::{channel_of, for_message};
use limits::Limits;
use meter::ByteMeter;
use std::collections::HashMap;
use token::Auth;
use vstd::prelude::*;

verus! {

broadcast use vstd::std_specs::hash::group_hash_axioms;

/// Transport-level failures, distinct from decode and validation failures so
/// the logs can tell them apart.
#[derive(Clone, Copy, Debug, PartialEq, Eq, Structural)]
pub enum TransportError {
    /// The socket could not be bound.
    Bind,
    /// A message could not be encoded; a bug in the caller, never an input.
    Encode,
    /// A configured limit refused the operation.
    Limit,
    /// A connect token could not be made or read.
    Token,
}

impl TransportError {
    /// The reason code.
    pub open spec fn text(self) -> Seq<char> {
        match self {
            TransportError::Bind => "E_TX_BIND"@,
            TransportError::Encode => "E_TX_ENCODE"@,
            TransportError::Limit => "E_TX_LIMIT"@,
            TransportError::Token => "E_TX_TOKEN"@,
        }
    }

    /// The reason code as it is logged.
    pub fn to_string(&self) -> (r: String)
        ensures
            r@ == self.text(),
    {
        match *self {
            TransportError::Bind => "E_TX_BIND".to_owned(),
            TransportError::Encode => "E_TX_ENCODE".to_owned(),
            TransportError::Limit => "E_TX_LIMIT".to_owned(),
            TransportError::Token => "E_TX_TOKEN".to_owned(),
        }
    }
}

/// One inbound event handed to the bridge: already decoded, already validated.
#[derive(Debug)]
pub enum Inbound {
    /// A client completed the netcode handshake.
    Connected {
        /// Transport-assigned client id.
        client: u64,
    },
    /// A client left or timed out.
    Disconnected {
        /// Transport-assigned client id.
        client: u64,
        /// The transport's reason text, for logs only.
        reason: String,
    },
    /// A decoded, direction-checked, validated message.
    Message {
        /// Sender.
        client: u64,
        /// The message.
        msg: Message,
    },
    /// A rejection, surfaced so the server can count and log it. Never acted on.
    Rejected {
        /// Sender.
        client: u64,
        /// Why.
        reject: RejectKind,
    },
}

/// What an [`Inbound`] says.
#[verifier::ext_equal]
pub enum InboundView {
    Connected { client: u64 },
    Disconnected { client: u64, reason: Seq<char> },
    Message { client: u64, msg: MessageView },
    Rejected { client: u64, reject: RejectKind },
}

impl View for Inbound {
    type V = InboundView;

    open spec fn view(&self) -> InboundView {
        match *self {
            Inbound::Connected { client } => InboundView::Connected { client },
            Inbound::Disconnected { client, reason } => InboundView::Disconnected {
                client,
                reason: reason@,
            },
            Inbound::Message { client, msg } => InboundView::Message { client, msg: msg@ },
            Inbound::Rejected { client, reject } => InboundView::Rejected { client, reject },
        }
    }
}

/// Why an inbound packet was dropped.
#[derive(Clone, Copy, Debug, PartialEq, Eq, Structural)]
pub enum RejectKind {
    /// The recognizer refused the bytes.
    Decode(WireError),
    /// The structural validator refused the message.
    Validate(Reject),
    /// A transport limit (size, queue, rate) refused the packet before decode.
    Limit,
    /// A message whose direction is server-to-client arrived from a client.
    Direction,
}

impl RejectKind {
    /// The text of a rejection: the code of whoever refused.
    pub open spec fn text(self) -> Seq<char> {
        match self {
            RejectKind::Decode(e) => e.text(),
            RejectKind::Validate(e) => e.text(),
            RejectKind::Limit => "E_TX_LIMIT"@,
            RejectKind::Direction => "E_TX_DIRECTION"@,
        }
    }

    /// The rejection as it is logged.
    pub fn to_string(&self) -> (r: String)
        ensures
            r@ == self.text(),
    {
        match self {
            RejectKind::Decode(e) => e.to_string(),
            RejectKind::Validate(e) => e.to_string(),
            RejectKind::Limit => "E_TX_LIMIT".to_owned(),
            RejectKind::Direction => "E_TX_DIRECTION".to_owned(),
        }
    }
}

/// The numeric code of a rejection.
pub open spec fn code_of(kind: RejectKind) -> u16 {
    match kind {
        RejectKind::Decode(WireError::TooLong { .. }) => 101,
        RejectKind::Decode(WireError::Malformed) => 102,
        RejectKind::Decode(WireError::Trailing(_)) => 103,
        RejectKind::Decode(WireError::NonCanonical) => 104,
        RejectKind::Validate(Reject::SchemaVersion) => 201,
        RejectKind::Validate(Reject::NonFinite) => 202,
        RejectKind::Validate(Reject::OutOfWorld) => 203,
        RejectKind::Validate(Reject::Rate) => 204,
        RejectKind::Validate(Reject::ZeroDelta) => 205,
        RejectKind::Validate(Reject::SeqReplay) => 206,
        RejectKind::Limit => 301,
        RejectKind::Direction => 302,
    }
}

/// Stable numeric reason codes: the `u16` carried by `Message::Refuse` and by
/// the bridge's `WireEvent.reason`. Decode failures are 1xx, validation 2xx,
/// transport 3xx. Append only; the match is exhaustive on purpose so a new
/// reason cannot ship without a number.
pub fn reason_code(kind: &RejectKind) -> (r: u16)
    ensures
        r == code_of(*kind),
{
    match *kind {
        RejectKind::Decode(WireError::TooLong { .. }) => 101,
        RejectKind::Decode(WireError::Malformed) => 102,
        RejectKind::Decode(WireError::Trailing(_)) => 103,
        RejectKind::Decode(WireError::NonCanonical) => 104,
        RejectKind::Validate(Reject::SchemaVersion) => 201,
        RejectKind::Validate(Reject::NonFinite) => 202,
        RejectKind::Validate(Reject::OutOfWorld) => 203,
        RejectKind::Validate(Reject::Rate) => 204,
        RejectKind::Validate(Reject::ZeroDelta) => 205,
        RejectKind::Validate(Reject::SeqReplay) => 206,
        RejectKind::Limit => 301,
        RejectKind::Direction => 302,
    }
}

/// The same reason, whatever the numbers that some decode errors carry.
pub open spec fn same_reason(a: RejectKind, b: RejectKind) -> bool {
    match (a, b) {
        (RejectKind::Decode(x), RejectKind::Decode(y)) => match (x, y) {
            (WireError::TooLong { .. }, WireError::TooLong { .. }) => true,
            (WireError::Trailing(_), WireError::Trailing(_)) => true,
            _ => x == y,
        },
        _ => a == b,
    }
}

/// Different reasons have different codes, and a code tells who refused:
/// decode failures are in the hundreds from one, validation from two, transport
/// from three.
pub proof fn law_reason_codes_are_distinct(a: RejectKind, b: RejectKind)
    ensures
        code_of(a) == code_of(b) <==> same_reason(a, b),
        (a is Decode) == (100 <= code_of(a) < 200),
        (a is Validate) == (200 <= code_of(a) < 300),
        (a is Limit || a is Direction) == (300 <= code_of(a) < 400),
{
}

/// The families a client may send.
pub open spec fn from_client(m: MessageView) -> bool {
    match m {
        MessageView::Hello(_)
        | MessageView::Movement(_)
        | MessageView::Hit(_)
        | MessageView::HostedActor(_) => true,
        _ => false,
    }
}

/// True for the message families a client may send. Everything else arriving
/// from a client is rejected as [`RejectKind::Direction`] before validation.
pub fn client_may_send(msg: &Message) -> (r: bool)
    ensures
        r == from_client(msg@),
{
    match msg {
        Message::Hello(_)
        | Message::Movement(_)
        | Message::Hit(_)
        | Message::HostedActor(_) => true,
        _ => false,
    }
}

/// A span of time in milliseconds, as far as a `u64` goes.
pub fn whole_millis(ms: u128) -> (r: u64)
    ensures
        r == if ms > u64::MAX {
            u64::MAX as u128
        } else {
            ms
        },
{
    if ms > u64::MAX as u128 {
        u64::MAX
    } else {
        ms as u64
    }
}

// ---------------------------------------------------------------------------
// What becomes of a packet
// ---------------------------------------------------------------------------

/// What is kept of one connection.
#[derive(Debug)]
pub struct Connection {
    /// What its messages are held to.
    pub guard: ClientGuard,
    /// What its bytes are held to.
    pub meter: ByteMeter,
}

/// What a [`Connection`] holds.
#[verifier::ext_equal]
pub struct ConnectionView {
    pub guard: GuardView,
    pub meter: ByteMeter,
}

impl View for Connection {
    type V = ConnectionView;

    open spec fn view(&self) -> ConnectionView {
        ConnectionView { guard: self.guard@, meter: self.meter }
    }
}

impl ConnectionView {
    /// A connection before any packet.
    pub open spec fn fresh() -> ConnectionView {
        ConnectionView { guard: GuardView::fresh(), meter: ByteMeter::fresh() }
    }

    /// Whether a packet of `len` bytes is within the transport limits.
    pub open spec fn has_room(self, len: nat, limits: Limits, now_ms: u64) -> bool {
        len <= limits.max_packet && self.meter.allows(len, limits.bytes_per_s_per_client, now_ms)
    }
}

impl Default for Connection {
    fn default() -> (r: Self)
        ensures
            r@ == ConnectionView::fresh(),
    {
        Connection { guard: ClientGuard::default(), meter: ByteMeter::new() }
    }
}

/// What a packet from a client comes to: the message in it, or why it is
/// dropped. Limits first, then decode, direction, validation.
pub open spec fn screened(
    bytes: Seq<u8>,
    limits: Limits,
    conn: ConnectionView,
    now_ms: u64,
) -> Result<MessageView, RejectKind> {
    if !conn.has_room(bytes.len(), limits, now_ms) {
        Err(RejectKind::Limit)
    } else {
        match decoded(bytes) {
            Err(e) => Err(RejectKind::Decode(e)),
            Ok(m) => if !from_client(m) {
                Err(RejectKind::Direction)
            } else {
                match verdict(m, conn.guard, now_ms) {
                    Some(e) => Err(RejectKind::Validate(e)),
                    None => Ok(m),
                }
            },
        }
    }
}

/// The connection after the packet. What is within the limits is metered; only
/// what reaches validation can change the guard.
pub open spec fn after_packet(
    bytes: Seq<u8>,
    limits: Limits,
    conn: ConnectionView,
    now_ms: u64,
) -> ConnectionView {
    if !conn.has_room(bytes.len(), limits, now_ms) {
        conn
    } else {
        ConnectionView {
            meter: conn.meter.after(bytes.len(), limits.bytes_per_s_per_client, now_ms),
            guard: match decoded(bytes) {
                Err(_) => conn.guard,
                Ok(m) => if !from_client(m) {
                    conn.guard
                } else {
                    guard_after(m, conn.guard, now_ms)
                },
            },
        }
    }
}

/// Takes one packet from a client through limits, decode, direction and
/// validation.
pub fn screen(bytes: &[u8], limits: &Limits, conn: &mut Connection, now_ms: u64) -> (r: Result<
    Message,
    RejectKind,
>)
    ensures
        match r {
            Ok(msg) => screened(bytes@, *limits, old(conn)@, now_ms) == Ok::<
                MessageView,
                RejectKind,
            >(msg@),
            Err(e) => screened(bytes@, *limits, old(conn)@, now_ms) == Err::<
                MessageView,
                RejectKind,
            >(e),
        },
        final(conn)@ == after_packet(bytes@, *limits, old(conn)@, now_ms),
{
    if bytes.len() > limits.max_packet {
        return Err(RejectKind::Limit);
    }
    if !conn.meter.count(bytes.len(), limits.bytes_per_s_per_client, now_ms) {
        return Err(RejectKind::Limit);
    }
    match decode(bytes) {
        Err(e) => Err(RejectKind::Decode(e)),
        Ok(msg) => {
            if !client_may_send(&msg) {
                return Err(RejectKind::Direction);
            }
            match validate(&msg, &mut conn.guard, now_ms) {
                Err(e) => Err(RejectKind::Validate(e)),
                Ok(()) => Ok(msg),
            }
        },
    }
}

// ---------------------------------------------------------------------------
// Server
// ---------------------------------------------------------------------------

/// What the network layer reports to a server.
#[derive(Debug)]
pub enum NetEvent {
    /// A client completed the netcode handshake.
    Connected {
        /// Transport-assigned client id.
        client: u64,
    },
    /// A client left or timed out.
    Disconnected {
        /// Transport-assigned client id.
        client: u64,
        /// The network layer's reason text.
        reason: String,
    },
    /// One packet's payload, as it came off a channel.
    Packet {
        /// Sender.
        client: u64,
        /// The payload.
        bytes: Vec<u8>,
    },
    /// A packet refused before it was queued: its sender had as many undelivered
    /// packets as it may have.
    Refused {
        /// Sender.
        client: u64,
    },
}

/// What a [`NetEvent`] says.
#[verifier::ext_equal]
pub enum NetEventView {
    Connected { client: u64 },
    Disconnected { client: u64, reason: Seq<char> },
    Packet { client: u64, bytes: Seq<u8> },
    Refused { client: u64 },
}

impl View for NetEvent {
    type V = NetEventView;

    open spec fn view(&self) -> NetEventView {
        match *self {
            NetEvent::Connected { client } => NetEventView::Connected { client },
            NetEvent::Disconnected { client, reason } => NetEventView::Disconnected {
                client,
                reason: reason@,
            },
            NetEvent::Packet { client, bytes } => NetEventView::Packet { client, bytes: bytes@ },
            NetEvent::Refused { client } => NetEventView::Refused { client },
        }
    }
}

/// One message on its way out.
#[derive(Debug)]
pub struct Frame {
    /// Whom it is for.
    pub client: u64,
    /// The channel it rides.
    pub channel: u8,
    /// Its encoding.
    pub bytes: Vec<u8>,
}

/// What a [`Frame`] says.
#[verifier::ext_equal]
pub struct FrameView {
    pub client: u64,
    pub channel: u8,
    pub bytes: Seq<u8>,
}

impl View for Frame {
    type V = FrameView;

    open spec fn view(&self) -> FrameView {
        FrameView { client: self.client, channel: self.channel, bytes: self.bytes@ }
    }
}

/// Server-side transport. Owns one [`Connection`] per client, and with it one
/// [`ClientGuard`].
pub struct Server {
    conns: HashMap<u64, Connection>,
    limits: Limits,
    now_ms: u64,
    unsecure: bool,
    inbox: Vec<NetEvent>,
    outbox: Vec<Frame>,
}

/// What a [`Server`] holds.
#[verifier::ext_equal]
pub struct ServerView {
    /// What is kept of each connection.
    pub conns: Map<u64, ConnectionView>,
    pub limits: Limits,
    /// The server's clock.
    pub now_ms: u64,
    pub unsecure: bool,
    /// Reported by the network layer and not polled yet.
    pub inbox: Seq<NetEventView>,
    /// Sent and not taken by the network layer yet.
    pub outbox: Seq<FrameView>,
}

pub open spec fn event_views(events: Seq<NetEvent>) -> Seq<NetEventView> {
    Seq::new(events.len(), |i: int| events[i]@)
}

pub open spec fn frame_views(frames: Seq<Frame>) -> Seq<FrameView> {
    Seq::new(frames.len(), |i: int| frames[i]@)
}

pub open spec fn inbound_views(events: Seq<Inbound>) -> Seq<InboundView> {
    Seq::new(events.len(), |i: int| events[i]@)
}

pub open spec fn conn_views(conns: Map<u64, Connection>) -> Map<u64, ConnectionView> {
    Map::new(|c: u64| conns.contains_key(c), |c: u64| conns[c]@)
}

impl View for Server {
    type V = ServerView;

    closed spec fn view(&self) -> ServerView {
        ServerView {
            conns: conn_views(self.conns@),
            limits: self.limits,
            now_ms: self.now_ms,
            unsecure: self.unsecure,
            inbox: event_views(self.inbox@),
            outbox: frame_views(self.outbox@),
        }
    }
}

/// The connection of a client: its own, or a new one.
pub open spec fn conn_of(conns: Map<u64, ConnectionView>, client: u64) -> ConnectionView {
    if conns.contains_key(client) {
        conns[client]
    } else {
        ConnectionView::fresh()
    }
}

/// What the bridge is told of one event.
pub open spec fn told(
    ev: NetEventView,
    limits: Limits,
    conns: Map<u64, ConnectionView>,
    now_ms: u64,
) -> InboundView {
    match ev {
        NetEventView::Connected { client } => InboundView::Connected { client },
        NetEventView::Disconnected { client, reason } => InboundView::Disconnected {
            client,
            reason,
        },
        NetEventView::Packet { client, bytes } => match screened(
            bytes,
            limits,
            conn_of(conns, client),
            now_ms,
        ) {
            Ok(msg) => InboundView::Message { client, msg },
            Err(reject) => InboundView::Rejected { client, reject },
        },
        NetEventView::Refused { client } => InboundView::Rejected {
            client,
            reject: RejectKind::Limit,
        },
    }
}

/// The connections after one event: one starts afresh and takes what was kept
/// of it along when it ends.
pub open spec fn conns_after(
    ev: NetEventView,
    limits: Limits,
    conns: Map<u64, ConnectionView>,
    now_ms: u64,
) -> Map<u64, ConnectionView> {
    match ev {
        NetEventView::Connected { client } => conns.insert(client, ConnectionView::fresh()),
        NetEventView::Disconnected { client, .. } => conns.remove(client),
        NetEventView::Packet { client, bytes } => conns.insert(
            client,
            after_packet(bytes, limits, conn_of(conns, client), now_ms),
        ),
        NetEventView::Refused { .. } => conns,
    }
}

/// The connections after a run of events.
pub open spec fn conns_after_all(
    events: Seq<NetEventView>,
    limits: Limits,
    conns: Map<u64, ConnectionView>,
    now_ms: u64,
) -> Map<u64, ConnectionView>
    decreases events.len(),
{
    if events.len() == 0 {
        conns
    } else {
        conns_after(
            events.last(),
            limits,
            conns_after_all(events.drop_last(), limits, conns, now_ms),
            now_ms,
        )
    }
}

/// What the bridge is told of a run of events, in order.
pub open spec fn told_all(
    events: Seq<NetEventView>,
    limits: Limits,
    conns: Map<u64, ConnectionView>,
    now_ms: u64,
) -> Seq<InboundView>
    decreases events.len(),
{
    if events.len() == 0 {
        seq![]
    } else {
        told_all(events.drop_last(), limits, conns, now_ms).push(
            told(
                events.last(),
                limits,
                conns_after_all(events.drop_last(), limits, conns, now_ms),
                now_ms,
            ),
        )
    }
}

/// How many packets of a client wait to be polled.
pub open spec fn queued(inbox: Seq<NetEventView>, client: u64) -> nat
    decreases inbox.len(),
{
    if inbox.len() == 0 {
        0
    } else {
        let before = queued(inbox.drop_last(), client);
        match inbox.last() {
            NetEventView::Packet { client: sender, .. } => if sender == client {
                before + 1
            } else {
                before
            },
            _ => before,
        }
    }
}

/// Whether a server takes a report: a packet only while its sender has fewer
/// undelivered packets than the limit.
pub open spec fn delivers(s: ServerView, ev: NetEventView) -> bool {
    ev matches NetEventView::Packet { client, .. } ==> queued(s.inbox, client)
        < s.limits.max_queued_per_client
}

/// What waits to be polled after a report. In place of a packet that is not
/// taken stands that it was refused.
pub open spec fn inbox_after(s: ServerView, ev: NetEventView) -> Seq<NetEventView> {
    if delivers(s, ev) {
        s.inbox.push(ev)
    } else {
        s.inbox.push(NetEventView::Refused { client: ev->Packet_client })
    }
}

/// A clock that stops at the largest `u64`.
pub open spec fn later(now_ms: u64, dt_ms: u64) -> u64 {
    if now_ms + dt_ms > u64::MAX {
        u64::MAX
    } else {
        (now_ms + dt_ms) as u64
    }
}

impl Server {
    /// A server over a socket that the embedder tried to bind: `bound` says
    /// whether it could. Lab uses `Auth::Unsecure`; public servers must use
    /// `Auth::Secure`.
    pub fn bind(bound: bool, limits: Limits, auth: &Auth) -> (r: Result<Self, TransportError>)
        ensures
            match r {
                Ok(s) => bound && s@ == (ServerView {
                    conns: Map::empty(),
                    limits,
                    now_ms: 0,
                    unsecure: *auth is Unsecure,
                    inbox: seq![],
                    outbox: seq![],
                }),
                Err(e) => !bound && e == TransportError::Bind,
            },
    {
        if !bound {
            return Err(TransportError::Bind);
        }
        let unsecure = match auth {
            Auth::Unsecure => true,
            Auth::Secure { .. } => false,
        };
        let s = Self {
            conns: HashMap::new(),
            limits,
            now_ms: 0,
            unsecure,
            inbox: Vec::new(),
            outbox: Vec::new(),
        };
        assert(s@.conns =~= Map::empty());
        assert(s@.inbox =~= seq![]);
        assert(s@.outbox =~= seq![]);
        Ok(s)
    }

    /// True for a server that takes unsigned tokens.
    pub fn is_unsecure(&self) -> (r: bool)
        ensures
            r == self@.unsecure,
    {
        self.unsecure
    }

    /// Takes what the network layer reports, for the next poll. False for a
    /// packet of a client that has as many undelivered packets as it may have:
    /// the packet is not taken, the next poll tells of it as rejected, and the
    /// connection is to be dropped.
    pub fn deliver(&mut self, ev: NetEvent) -> (r: bool)
        ensures
            r == delivers(old(self)@, ev@),
            final(self)@ == (ServerView { inbox: inbox_after(old(self)@, ev@), ..old(self)@ }),
    {
        if let NetEvent::Packet { client, .. } = &ev {
            if self.count_queued(*client) >= self.limits.max_queued_per_client {
                self.inbox.push(NetEvent::Refused { client: *client });
                proof {
                    assert(self@.inbox =~= old(self)@.inbox.push(
                        NetEventView::Refused { client: *client },
                    ));
                }
                return false;
            }
        }
        self.inbox.push(ev);
        proof {
            assert(self@.inbox =~= old(self)@.inbox.push(ev@));
        }
        true
    }

    fn count_queued(&self, client: u64) -> (r: usize)
        ensures
            r == queued(self@.inbox, client),
    {
        let mut n: usize = 0;
        let mut i: usize = 0;
        proof {
            assert(self@.inbox.take(0) =~= seq![]);
        }
        while i < self.inbox.len()
            invariant
                i <= self.inbox@.len(),
                n <= i,
                n == queued(self@.inbox.take(i as int), client),
            decreases self.inbox@.len() - i,
        {
            if let NetEvent::Packet { client: sender, .. } = &self.inbox[i] {
                if *sender == client {
                    n = n + 1;
                }
            }
            i = i + 1;
            proof {
                assert(self@.inbox.take(i as int).drop_last() =~= self@.inbox.take(i - 1));
                assert(self@.inbox.take(i as int).last() == self.inbox@[i - 1]@);
            }
        }
        proof {
            assert(self@.inbox.take(i as int) =~= self@.inbox);
        }
        n
    }

    /// Advance the clock by `dt_ms`, take in what was delivered, and drain
    /// events into `out`. Every message in `out` has passed limits, decode,
    /// direction, and validation.
    pub fn poll(&mut self, dt_ms: u64, out: &mut Vec<Inbound>)
        ensures
            ({
                let now_ms = later(old(self)@.now_ms, dt_ms);
                let events = old(self)@.inbox;
                let limits = old(self)@.limits;
                let conns = old(self)@.conns;
                &&& final(self)@ == (ServerView {
                    conns: conns_after_all(events, limits, conns, now_ms),
                    now_ms,
                    inbox: seq![],
                    ..old(self)@
                })
                &&& final(out)@.len() == old(out)@.len() + events.len()
                &&& final(out)@.take(old(out)@.len() as int) == old(out)@
                &&& inbound_views(final(out)@.skip(old(out)@.len() as int)) == told_all(
                    events,
                    limits,
                    conns,
                    now_ms,
                )
            }),
    {
        self.now_ms = self.now_ms.saturating_add(dt_ms);
        let ghost events = self@.inbox;
        let ghost limits = self.limits;
        let ghost conns = self@.conns;
        let ghost before = out@;
        let mut i: usize = 0;
        proof {
            assert(events.take(0) =~= seq![]);
            assert(out@.take(before.len() as int) =~= before);
            assert(inbound_views(out@.skip(before.len() as int)) =~= seq![]);
        }
        while i < self.inbox.len()
            invariant
                i <= self.inbox@.len(),
                self.inbox == old(self).inbox,
                self.outbox == old(self).outbox,
                self.unsecure == old(self).unsecure,
                self.limits == limits,
                self.now_ms == later(old(self)@.now_ms, dt_ms),
                events == event_views(self.inbox@),
                before == old(out)@,
                conn_views(self.conns@) == conns_after_all(
                    events.take(i as int),
                    limits,
                    conns,
                    self.now_ms,
                ),
                out@.len() == before.len() + i,
                out@.take(before.len() as int) == before,
                inbound_views(out@.skip(before.len() as int)) == told_all(
                    events.take(i as int),
                    limits,
                    conns,
                    self.now_ms,
                ),
            decreases self.inbox@.len() - i,
        {
            let ghost so_far = conn_views(self.conns@);
            let ghost ev = events[i as int];
            let ghost shown = out@;
            let event: Inbound = match &self.inbox[i] {
                NetEvent::Connected { client } => {
                    let _old = self.conns.insert(*client, Connection::default());
                    Inbound::Connected { client: *client }
                },
                NetEvent::Disconnected { client, reason } => {
                    let _old = self.conns.remove(client);
                    Inbound::Disconnected { client: *client, reason: reason.clone() }
                },
                NetEvent::Packet { client, bytes } => {
                    let mut conn = match self.conns.remove(client) {
                        Some(conn) => conn,
                        None => Connection::default(),
                    };
                    let outcome = screen(bytes.as_slice(), &self.limits, &mut conn, self.now_ms);
                    let _old = self.conns.insert(*client, conn);
                    match outcome {
                        Ok(msg) => Inbound::Message { client: *client, msg },
                        Err(reject) => Inbound::Rejected { client: *client, reject },
                    }
                },
                NetEvent::Refused { client } => Inbound::Rejected {
                    client: *client,
                    reject: RejectKind::Limit,
                },
            };
            proof {
                assert(conn_views(self.conns@) =~= conns_after(ev, limits, so_far, self.now_ms));
                assert(event@ == told(ev, limits, so_far, self.now_ms));
                assert(events.take(i + 1).drop_last() =~= events.take(i as int));
            }
            out.push(event);
            i = i + 1;
            proof {
                assert(out@.take(before.len() as int) =~= shown.take(before.len() as int));
                assert(inbound_views(out@.skip(before.len() as int)) =~= inbound_views(
                    shown.skip(before.len() as int),
                ).push(event@));
            }
        }
        proof {
            assert(events.take(i as int) =~= events);
        }
        self.inbox.clear();
        proof {
            assert(self@.inbox =~= seq![]);
        }
    }

    /// Encode and send one message to one client on the channel its family
    /// maps to.
    pub fn send(&mut self, client: u64, msg: &Message) -> (r: Result<(), TransportError>)
        ensures
            r is Ok,
            msg@.valid(),
            final(self)@ == (ServerView {
                outbox: old(self)@.outbox.push(
                    FrameView { client, channel: channel_of(msg@), bytes: encoding(msg@) },
                ),
                ..old(self)@
            }),
    {
        let bytes = match encoded(msg) {
            Ok(bytes) => bytes,
            Err(e) => {
                return Err(e);
            },
        };
        let frame = Frame { client, channel: for_message(msg), bytes };
        let ghost view = frame@;
        self.outbox.push(frame);
        proof {
            assert(self@.outbox =~= old(self)@.outbox.push(view));
        }
        Ok(())
    }

    /// Hands what was sent, oldest first, to the network layer.
    pub fn take_outgoing(&mut self) -> (r: Vec<Frame>)
        ensures
            frame_views(r@) == old(self)@.outbox,
            final(self)@ == (ServerView { outbox: seq![], ..old(self)@ }),
    {
        let mut taken: Vec<Frame> = Vec::new();
        std::mem::swap(&mut taken, &mut self.outbox);
        proof {
            assert(self@.outbox =~= seq![]);
        }
        taken
    }
}

/// The encoding of a message, in a vector of its own.
pub(crate) fn encoded(msg: &Message) -> (r: Result<Vec<u8>, TransportError>)
    ensures
        r matches Ok(bytes) && bytes@ == encoding(msg@),
        msg@.valid(),
{
    let mut buf: Vec<u8> = vec![0u8; Message::MAX_ENCODED_LEN];
    let mut bytes: Vec<u8> = Vec::new();
    match encode(msg, buf.as_mut_slice()) {
        Ok(used) => {
            bytes.extend_from_slice(used);
            proof {
                assert(bytes@ =~= used@);
            }
            Ok(bytes)
        },
        Err(_) => Err(TransportError::Encode),
    }
}

} // verus!
