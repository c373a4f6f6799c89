//! The bridge the C++ server links against. C++ sees [`WireEvent`]s with
//! already decoded, already validated payloads and never a byte of network
//! input.
//!
//! Flag bits in `WireEvent.flags`: for Movement, [`FLAG_RUN`] and
//! [`FLAG_SNEAK`]; for Hit, [`FLAG_POWER_ATTACK`]. `WireEvent.reason` is a
//! transport reason code for Rejected events and zero otherwise.
use crate::codec::format::encoding;
use crate::codec::{decoded, law_decode_undoes_encode, WireError};
use crate::scalar::F32;
use crate::schema::bounded::deltas_as_slice;
use crate::schema::{
    self, FormId, HostedActorState, HostedActorView, ItemDelta, Message, MessageView,
};
use crate::transport::channels::{RELIABLE_ORDERED, RELIABLE_UNORDERED};
use crate::transport::limits::Limits;
use crate::transport::token::Auth;
use crate::transport::{
    self, code_of, conns_after_all, delivers, inbound_views, inbox_after, later, reason_code,
    told_all, FrameView, Inbound, InboundView, NetEvent, RejectKind, ServerView,
};
use vstd::prelude::*;

verus! {

/// Movement: the actor is running.
pub const FLAG_RUN: u32 = 1;

/// Movement: the actor is sneaking.
pub const FLAG_SNEAK: u32 = 2;

/// Hit: the swing was a power attack.
pub const FLAG_POWER_ATTACK: u32 = 1;

/// Kinds the C++ side switches on. Payload is decoded into the fields that
/// apply; the rest are zero. Extend by appending variants.
#[derive(Clone, Copy, Debug, PartialEq, Eq, Structural)]
pub enum EventKind {
    /// A client completed the handshake.
    Connected,
    /// A client left or timed out.
    Disconnected,
    /// `Message::Hello`.
    Hello,
    /// `Message::Movement`: seq, actor, transform, flags.
    Movement,
    /// `Message::Hit`: seq, actor (the attacker), target, weapon, flags.
    Hit,
    /// `Message::HostedActor`: actor, transform, health, payload index.
    HostedActor,
    /// A dropped packet; `reason` holds the code.
    Rejected,
}

/// Position and rotation in engine units, as decoded.
#[derive(Clone, Copy, Debug, PartialEq)]
pub struct Transform {
    /// World x.
    pub x: F32,
    /// World y.
    pub y: F32,
    /// World z.
    pub z: F32,
    /// Heading, radians.
    pub yaw: F32,
    /// Look pitch, radians.
    pub pitch: F32,
}

/// Flattened event. Variable-length payloads (inventory deltas, names) are
/// fetched with the accessor functions below rather than copied into every
/// event.
#[derive(Clone, Copy, Debug, PartialEq)]
pub struct WireEvent {
    /// Transport-assigned client id.
    pub client: u64,
    /// What this event is.
    pub kind: EventKind,
    /// Message sequence number, when the message has one.
    pub seq: u32,
    /// Primary actor form id (mover, attacker, hosted NPC).
    pub actor: u32,
    /// Secondary form id (hit target).
    pub target: u32,
    /// Weapon form id for hits.
    pub weapon: u32,
    /// Transform for movement and hosted actors.
    pub transform: Transform,
    /// Health for hosted actors.
    pub health: F32,
    /// Flag bits per kind; see the module docs.
    pub flags: u32,
    /// Reason code for Rejected, else 0.
    pub reason: u16,
    /// Index into the bridge's per-poll payload arena for accessors, for hosted
    /// actors; zero for all others.
    pub payload: u32,
}

/// Bind failures crossing to C++.
#[derive(Clone, Copy, Debug, PartialEq, Eq, Structural)]
pub enum BindError {
    /// The address string did not parse as `ip:port`.
    Addr,
    /// The transport could not bind the socket.
    Bind,
}

impl BindError {
    /// The reason code.
    pub open spec fn text(self) -> Seq<char> {
        match self {
            BindError::Addr => "E_BRIDGE_ADDR"@,
            BindError::Bind => "E_BRIDGE_BIND"@,
        }
    }

    /// The reason code as it crosses to C++.
    pub fn to_string(&self) -> (r: String)
        ensures
            r@ == self.text(),
    {
        match *self {
            BindError::Addr => "E_BRIDGE_ADDR".to_owned(),
            BindError::Bind => "E_BRIDGE_BIND".to_owned(),
        }
    }
}

pub open spec fn zero() -> F32 {
    F32 { bits: 0 }
}

/// An event of a kind from a client, with nothing else in it.
pub open spec fn bare(client: u64, kind: EventKind) -> WireEvent {
    WireEvent {
        client,
        kind,
        seq: 0,
        actor: 0,
        target: 0,
        weapon: 0,
        transform: Transform { x: zero(), y: zero(), z: zero(), yaw: zero(), pitch: zero() },
        health: zero(),
        flags: 0,
        reason: 0,
        payload: 0,
    }
}

pub open spec fn flat_transform(t: schema::Transform) -> Transform {
    Transform { x: t.x, y: t.y, z: t.z, yaw: t.yaw, pitch: t.pitch }
}

/// An arena index as it fits an event.
pub open spec fn payload_index(arena_len: nat) -> u32 {
    if arena_len > u32::MAX {
        u32::MAX
    } else {
        arena_len as u32
    }
}

/// The flattened form of a message, given how much the arena already holds.
pub open spec fn flat_message(client: u64, msg: MessageView, arena_len: nat) -> WireEvent {
    match msg {
        MessageView::Hello(_) => bare(client, EventKind::Hello),
        MessageView::Movement(m) => WireEvent {
            seq: m.seq,
            actor: m.actor.0,
            transform: flat_transform(m.transform),
            flags: ((if m.run {
                FLAG_RUN
            } else {
                0
            }) + (if m.sneak {
                FLAG_SNEAK
            } else {
                0
            })) as u32,
            ..bare(client, EventKind::Movement)
        },
        MessageView::Hit(h) => WireEvent {
            seq: h.seq,
            actor: h.attacker.0,
            target: h.target.0,
            weapon: h.weapon.0,
            flags: if h.power_attack {
                FLAG_POWER_ATTACK
            } else {
                0
            },
            ..bare(client, EventKind::Hit)
        },
        MessageView::HostedActor(s) => WireEvent {
            actor: s.actor.0,
            health: s.health,
            transform: flat_transform(s.transform),
            payload: payload_index(arena_len),
            ..bare(client, EventKind::HostedActor)
        },
        _ => WireEvent {
            reason: code_of(RejectKind::Direction),
            ..bare(client, EventKind::Rejected)
        },
    }
}

/// The flattened form of an event, given how much the arena already holds.
pub open spec fn flattened(ev: InboundView, arena_len: nat) -> WireEvent {
    match ev {
        InboundView::Connected { client } => bare(client, EventKind::Connected),
        InboundView::Disconnected { client, .. } => bare(client, EventKind::Disconnected),
        InboundView::Rejected { client, reject } => WireEvent {
            reason: code_of(reject),
            ..bare(client, EventKind::Rejected)
        },
        InboundView::Message { client, msg } => flat_message(client, msg, arena_len),
    }
}

pub open spec fn state_views(arena: Seq<HostedActorState>) -> Seq<HostedActorView> {
    Seq::new(arena.len(), |i: int| arena[i]@)
}

/// What one event adds to the arena.
pub open spec fn arena_after(ev: InboundView, arena: Seq<HostedActorView>) -> Seq<HostedActorView> {
    match ev {
        InboundView::Message { client: _, msg: MessageView::HostedActor(s) } => arena.push(s),
        _ => arena,
    }
}

/// The hosted actors among the events, in order: what a poll leaves in the
/// arena.
pub open spec fn hosted_in(events: Seq<InboundView>) -> Seq<HostedActorView>
    decreases events.len(),
{
    if events.len() == 0 {
        seq![]
    } else {
        arena_after(events.last(), hosted_in(events.drop_last()))
    }
}

/// The flattened forms of the events of one poll.
pub open spec fn flattened_all(events: Seq<InboundView>) -> Seq<WireEvent> {
    Seq::new(events.len(), |i: int| flattened(events[i], hosted_in(events.take(i)).len()))
}

/// A transform as C++ sees it.
pub fn transform(t: &schema::Transform) -> (r: Transform)
    ensures
        r == flat_transform(*t),
{
    Transform { x: t.x, y: t.y, z: t.z, yaw: t.yaw, pitch: t.pitch }
}

/// Flattens one event; a hosted actor's state goes into the arena.
pub fn flatten(ev: Inbound, arena: &mut Vec<HostedActorState>) -> (r: WireEvent)
    ensures
        r == flattened(ev@, old(arena)@.len()),
        ev matches Inbound::Message { client, msg } ==> {
            &&& r.client == client
            &&& msg matches Message::Movement(m) ==> r.seq == m.seq && r.actor == m.actor.0
                && same_place(r.transform, m.transform)
            &&& msg matches Message::Hit(h) ==> r.seq == h.seq && r.actor == h.attacker.0
                && r.target == h.target.0 && r.weapon == h.weapon.0
            &&& msg matches Message::HostedActor(s) ==> r.actor == s.actor.0 && r.health == s.health
                && same_place(r.transform, s.transform)
        },
        state_views(final(arena)@) == arena_after(ev@, state_views(old(arena)@)),
{
    let origin = F32::from_bits(0);
    let mut e = WireEvent {
        client: 0,
        kind: EventKind::Rejected,
        seq: 0,
        actor: 0,
        target: 0,
        weapon: 0,
        transform: Transform { x: origin, y: origin, z: origin, yaw: origin, pitch: origin },
        health: origin,
        flags: 0,
        reason: 0,
        payload: 0,
    };
    match ev {
        Inbound::Connected { client } => {
            e.client = client;
            e.kind = EventKind::Connected;
        },
        Inbound::Disconnected { client, .. } => {
            e.client = client;
            e.kind = EventKind::Disconnected;
        },
        Inbound::Rejected { client, reject } => {
            e.client = client;
            e.kind = EventKind::Rejected;
            e.reason = reason_code(&reject);
        },
        Inbound::Message { client, msg } => {
            e.client = client;
            match msg {
                Message::Hello(_) => {
                    e.kind = EventKind::Hello;
                },
                Message::Movement(m) => {
                    e.kind = EventKind::Movement;
                    e.seq = m.seq;
                    e.actor = m.actor.0;
                    e.transform = transform(&m.transform);
                    let run: u32 = if m.run {
                        FLAG_RUN
                    } else {
                        0
                    };
                    let sneak: u32 = if m.sneak {
                        FLAG_SNEAK
                    } else {
                        0
                    };
                    e.flags = run + sneak;
                },
                Message::Hit(h) => {
                    e.kind = EventKind::Hit;
                    e.seq = h.seq;
                    e.actor = h.attacker.0;
                    e.target = h.target.0;
                    e.weapon = h.weapon.0;
                    e.flags =
                    if h.power_attack {
                        FLAG_POWER_ATTACK
                    } else {
                        0
                    };
                },
                Message::HostedActor(s) => {
                    e.kind = EventKind::HostedActor;
                    e.actor = s.actor.0;
                    e.health = s.health;
                    e.transform = transform(&s.transform);
                    let index: usize = arena.len();
                    e.payload =
                    if index > u32::MAX as usize {
                        u32::MAX
                    } else {
                        index as u32
                    };
                    let ghost view = s@;
                    arena.push(s);
                    proof {
                        assert(state_views(arena@) =~= state_views(old(arena)@).push(view));
                    }
                },
                _ => {
                    // The transport already rejects these by direction; this
                    // arm exists because the enum is non-exhaustive.
                    e.kind = EventKind::Rejected;
                    e.reason = reason_code(&RejectKind::Direction);
                },
            }
        },
    }
    e
}

/// Bridge-side server: transport plus a per-poll arena for variable payloads.
pub struct Server {
    inner: transport::Server,
    arena: Vec<HostedActorState>,
}

/// What a [`Server`] holds.
#[verifier::ext_equal]
pub struct BridgeView {
    pub inner: ServerView,
    /// The hosted actors of the last poll.
    pub arena: Seq<HostedActorView>,
}

impl View for Server {
    type V = BridgeView;

    closed spec fn view(&self) -> BridgeView {
        BridgeView { inner: self.inner@, arena: state_views(self.arena@) }
    }
}

/// A server behind the bridge. `addr_parsed` says whether the address string
/// was an `ip:port`, `bound` whether the embedder could bind a socket to it.
pub fn wire_server_bind(addr_parsed: bool, bound: bool, lab_unsecure: bool) -> (r: Result<
    Box<Server>,
    BindError,
>)
    ensures
        match r {
            Ok(s) => addr_parsed && bound && s@ == (BridgeView {
                inner: ServerView {
                    conns: Map::empty(),
                    limits: Limits::standard(),
                    now_ms: 0,
                    unsecure: lab_unsecure,
                    inbox: seq![],
                    outbox: seq![],
                },
                arena: seq![],
            }),
            Err(BindError::Addr) => !addr_parsed,
            Err(BindError::Bind) => addr_parsed && !bound,
        },
{
    let auth = if lab_unsecure {
        Auth::Unsecure
    } else {
        Auth::Secure { private_key: [0;32] }
    };
    if !addr_parsed {
        return Err(BindError::Addr);
    }
    match transport::Server::bind(bound, Limits::default(), &auth) {
        Ok(inner) => {
            let s = Server { inner, arena: Vec::new() };
            assert(s@.arena =~= seq![]);
            Ok(Box::new(s))
        },
        Err(_) => Err(BindError::Bind),
    }
}

impl Server {
    /// Takes what the network layer reports, for the next poll. False for a
    /// packet of a client that has as many undelivered packets as it may have:
    /// the packet is not taken, the next poll tells of it as rejected, and the
    /// connection is to be dropped.
    pub fn deliver(&mut self, ev: NetEvent) -> (r: bool)
        ensures
            r == delivers(old(self)@.inner, ev@),
            final(self)@ == (BridgeView {
                inner: ServerView {
                    inbox: inbox_after(old(self)@.inner, ev@),
                    ..old(self)@.inner
                },
                ..old(self)@
            }),
    {
        self.inner.deliver(ev)
    }

    /// Hands what was sent, oldest first, to the network layer.
    pub fn take_outgoing(&mut self) -> (r: Vec<transport::Frame>)
        ensures
            transport::frame_views(r@) == old(self)@.inner.outbox,
            final(self)@ == (BridgeView {
                inner: ServerView { outbox: seq![], ..old(self)@.inner },
                ..old(self)@
            }),
    {
        self.inner.take_outgoing()
    }

    /// Polls the transport and flattens its events into `out`. The arena then
    /// holds the hosted actors of this poll and of no other.
    pub fn poll(&mut self, dt_ms: u64, out: &mut Vec<WireEvent>)
        ensures
            ({
                let before = old(self)@.inner;
                let now_ms = later(before.now_ms, dt_ms);
                let told = told_all(before.inbox, before.limits, before.conns, now_ms);
                &&& final(self)@.inner == (ServerView {
                    conns: conns_after_all(before.inbox, before.limits, before.conns, now_ms),
                    now_ms,
                    inbox: seq![],
                    ..before
                })
                &&& final(self)@.arena == hosted_in(told)
                &&& final(out)@ == old(out)@ + flattened_all(told)
            }),
    {
        self.arena.clear();
        let mut events: Vec<Inbound> = Vec::new();
        self.inner.poll(dt_ms, &mut events);
        let ghost told = inbound_views(events@);
        proof {
            assert(events@.skip(0) =~= events@);
            assert(told.take(0) =~= seq![]);
            assert(flattened_all(told.take(0)) =~= seq![]);
            assert(state_views(self.arena@) =~= seq![]);
            assert(out@ =~= old(out)@ + flattened_all(told.take(0)));
        }
        let ghost inner = self.inner;
        for ev in iter: events
            invariant
                iter.seq() == events@,
                told == inbound_views(events@),
                self.inner == inner,
                state_views(self.arena@) == hosted_in(told.take(iter.index() as int)),
                out@ == old(out)@ + flattened_all(told.take(iter.index() as int)),
        {
            let ghost i = iter.index() as int;
            let ghost view = ev@;
            let ghost arena_len = self.arena@.len();
            let e = flatten(ev, &mut self.arena);
            out.push(e);
            proof {
                assert(told[i] == view);
                assert(told.take(i + 1).drop_last() =~= told.take(i));
                assert(arena_len == hosted_in(told.take(i)).len());
                assert forall|k: int| 0 <= k <= i implies #[trigger] told.take(i + 1).take(k)
                    == told.take(k) by {
                    assert(told.take(i + 1).take(k) =~= told.take(k));
                }
                assert forall|k: int| 0 <= k < i implies #[trigger] told.take(i).take(k)
                    == told.take(k) by {
                    assert(told.take(i).take(k) =~= told.take(k));
                }
                assert(flattened_all(told.take(i + 1)) =~= flattened_all(told.take(i)).push(e));
                assert(out@ =~= old(out)@ + flattened_all(told.take(i + 1)));
            }
        }
        proof {
            assert(told.take(told.len() as int) =~= told);
        }
    }

    /// Tells a client of one applied inventory change.
    pub fn send_inventory_apply(&mut self, client: u64, owner: u32, item: u32, count: i32) -> (r:
        bool)
        ensures
            r,
            final(self)@ == sent(
                old(self)@,
                client,
                RELIABLE_UNORDERED,
                MessageView::InventoryApply {
                    owner: FormId(owner),
                    delta: ItemDelta { item: FormId(item), count },
                },
            ),
    {
        let msg = Message::InventoryApply {
            owner: FormId(owner),
            delta: ItemDelta { item: FormId(item), count },
        };
        self.inner.send(client, &msg).is_ok()
    }

    /// Tells a client that it now hosts a cell.
    pub fn send_host_grant(&mut self, client: u64, cell: u32) -> (r: bool)
        ensures
            r,
            final(self)@ == sent(
                old(self)@,
                client,
                RELIABLE_ORDERED,
                MessageView::HostGrant { cell: FormId(cell) },
            ),
    {
        self.inner.send(client, &Message::HostGrant { cell: FormId(cell) }).is_ok()
    }

    /// Tells a client to stop hosting a cell.
    pub fn send_host_release(&mut self, client: u64, cell: u32) -> (r: bool)
        ensures
            r,
            final(self)@ == sent(
                old(self)@,
                client,
                RELIABLE_ORDERED,
                MessageView::HostRelease { cell: FormId(cell) },
            ),
    {
        self.inner.send(client, &Message::HostRelease { cell: FormId(cell) }).is_ok()
    }

    /// Accessor for the Nth inventory delta of a HostedActor event. Without
    /// such a delta, false, and the arguments stay as they are.
    pub fn inventory_delta(&self, payload: u32, n: u32, item: &mut u32, count: &mut i32) -> (r:
        bool)
        ensures
            r == (payload < self@.arena.len() && n
                < self@.arena[payload as int].inventory_delta.len()),
            r ==> {
                let delta = self@.arena[payload as int].inventory_delta[n as int];
                *final(item) == delta.item.0 && *final(count) == delta.count
            },
            !r ==> *final(item) == *old(item) && *final(count) == *old(count),
    {
        let index: usize = payload as usize;
        if index >= self.arena.len() {
            return false;
        }
        let deltas = deltas_as_slice(&self.arena[index].inventory_delta);
        let nth: usize = n as usize;
        if nth >= deltas.len() {
            return false;
        }
        *item = deltas[nth].item.0;
        *count = deltas[nth].count;
        true
    }
}

/// The bridge with one more message on its way out.
pub open spec fn sent(b: BridgeView, client: u64, channel: u8, msg: MessageView) -> BridgeView {
    BridgeView {
        inner: ServerView {
            outbox: b.inner.outbox.push(FrameView { client, channel, bytes: encoding(msg) }),
            ..b.inner
        },
        ..b
    }
}

/// The fields that do not apply to an event's kind are zero.
pub open spec fn rest_is_zero(e: WireEvent) -> bool {
    let moves = e.kind is Movement || e.kind is HostedActor;
    &&& !(e.kind is Movement || e.kind is Hit) ==> e.seq == 0 && e.flags == 0
    &&& !(e.kind is Hit) ==> e.target == 0 && e.weapon == 0
    &&& !(moves || e.kind is Hit) ==> e.actor == 0
    &&& !moves ==> e.transform == bare(0, e.kind).transform
    &&& !(e.kind is HostedActor) ==> e.health == zero() && e.payload == 0
    &&& !(e.kind is Rejected) ==> e.reason == 0
}

/// Payload is decoded into the fields that apply; the rest are zero.
pub proof fn law_the_rest_are_zero(ev: InboundView, arena_len: nat)
    ensures
        rest_is_zero(flattened(ev, arena_len)),
{
}

/// The reason is a code for Rejected events and zero for all others.
pub proof fn law_reason_is_for_rejections(ev: InboundView, arena_len: nat)
    ensures
        ({
            let e = flattened(ev, arena_len);
            &&& (e.kind is Rejected) == (e.reason != 0)
            &&& ev matches InboundView::Rejected { client: _, reject } ==> e.kind is Rejected
                && e.reason == code_of(reject)
        }),
{
}

/// The flags of a movement tell running and sneaking apart.
pub proof fn law_flags_tell_apart(client: u64, a: MessageView, b: MessageView, arena_len: nat)
    requires
        a is Movement,
        b is Movement,
    ensures
        flat_message(client, a, arena_len).flags == flat_message(client, b, arena_len).flags <==> (
        a->Movement_0.run == b->Movement_0.run && a->Movement_0.sneak == b->Movement_0.sneak),
{
}

proof fn lemma_hosted_grows(events: Seq<InboundView>, i: int)
    requires
        0 <= i < events.len(),
    ensures
        hosted_in(events.take(i)).len() <= hosted_in(events).len(),
        forall|k: int|
            0 <= k < hosted_in(events.take(i)).len() ==> #[trigger] hosted_in(events)[k]
                == hosted_in(events.take(i))[k],
        events[i] matches InboundView::Message { client: _, msg: MessageView::HostedActor(s) }
            ==> hosted_in(events.take(i)).len() < hosted_in(events).len() && hosted_in(
            events,
        )[hosted_in(events.take(i)).len() as int] == s,
    decreases events.len(),
{
    let init = events.drop_last();
    if i == events.len() - 1 {
        assert(events.take(i) =~= init);
    } else {
        lemma_hosted_grows(init, i);
        assert(init.take(i) =~= events.take(i));
    }
}

/// The payload of a HostedActor event is the place of its state in the arena
/// that the poll leaves, as long as that is below the largest `u32`; other
/// events, which have no state there, carry zero.
pub proof fn law_payload_finds_its_state(events: Seq<InboundView>, i: int)
    requires
        0 <= i < events.len(),
        hosted_in(events).len() <= u32::MAX,
    ensures
        ({
            let e = flattened_all(events)[i];
            match events[i] {
                InboundView::Message { client: _, msg: MessageView::HostedActor(s) } => {
                    &&& e.payload < hosted_in(events).len()
                    &&& hosted_in(events)[e.payload as int] == s
                },
                _ => e.payload == 0,
            }
        }),
{
    lemma_hosted_grows(events, i);
}

/// C++ sees the payload of a message only where the transport let a message of
/// a client's through: an event of a message's kind comes of nothing else.
pub proof fn law_payloads_come_of_messages(ev: InboundView, arena_len: nat)
    ensures
        ({
            let e = flattened(ev, arena_len);
            let of_message = match e.kind {
                EventKind::Hello
                | EventKind::Movement
                | EventKind::Hit
                | EventKind::HostedActor => true,
                _ => false,
            };
            of_message == (ev matches InboundView::Message { client: _, msg }
                && transport::from_client(msg))
        }),
{
}

/// Two transforms with the same five floats.
pub open spec fn same_place(a: Transform, b: schema::Transform) -> bool {
    a.x.bits == b.x.bits && a.y.bits == b.y.bits && a.z.bits == b.z.bits && a.yaw.bits
        == b.yaw.bits && a.pitch.bits == b.pitch.bits
}

/// Every field that applies is carried over as it is: the client of every event,
/// the transform and the health of a hosted actor, the sequence number, the
/// actor and the transform of a movement, and what a hit says of attacker,
/// target, weapon and power.
pub proof fn law_fields_are_carried_over(client: u64, msg: MessageView, arena_len: nat)
    ensures
        ({
            let e = flattened(InboundView::Message { client, msg }, arena_len);
            &&& e.client == client
            &&& msg is Hello ==> e.kind is Hello
            &&& msg matches MessageView::Movement(m) ==> {
                &&& e.kind is Movement
                &&& e.seq == m.seq
                &&& e.actor == m.actor.0
                &&& e.transform.x.bits == m.transform.x.bits
                &&& e.transform.y.bits == m.transform.y.bits
                &&& e.transform.z.bits == m.transform.z.bits
                &&& e.transform.yaw.bits == m.transform.yaw.bits
                &&& e.transform.pitch.bits == m.transform.pitch.bits
                &&& e.flags == (if m.run {
                    1int
                } else {
                    0
                }) + (if m.sneak {
                    2int
                } else {
                    0
                })
            }
            &&& msg matches MessageView::Hit(h) ==> {
                &&& e.kind is Hit
                &&& e.seq == h.seq
                &&& e.actor == h.attacker.0
                &&& e.target == h.target.0
                &&& e.weapon == h.weapon.0
                &&& e.flags == if h.power_attack {
                    1int
                } else {
                    0
                }
            }
            &&& msg matches MessageView::HostedActor(s) ==> {
                &&& e.kind is HostedActor
                &&& e.actor == s.actor.0
                &&& e.health.bits == s.health.bits
                &&& e.transform.x.bits == s.transform.x.bits
                &&& e.transform.y.bits == s.transform.y.bits
                &&& e.transform.z.bits == s.transform.z.bits
                &&& e.transform.yaw.bits == s.transform.yaw.bits
                &&& e.transform.pitch.bits == s.transform.pitch.bits
                &&& arena_len <= u32::MAX ==> e.payload == arena_len
                &&& arena_len > u32::MAX ==> e.payload == u32::MAX
            }
            &&& !transport::from_client(msg) ==> e.kind is Rejected && e.reason == 302
        }),
{
}

/// What is no message keeps its client and its kind, and a rejection its code.
pub proof fn law_other_events_are_carried_over(ev: InboundView, arena_len: nat)
    ensures
        ({
            let e = flattened(ev, arena_len);
            match ev {
                InboundView::Connected { client } => e.client == client && e.kind is Connected,
                InboundView::Disconnected { client, .. } => e.client == client
                    && e.kind is Disconnected,
                InboundView::Rejected { client, reject } => e.client == client && e.kind is Rejected
                    && e.reason == code_of(reject),
                InboundView::Message { client, .. } => e.client == client,
            }
        }),
{
}

/// One event goes in, one comes out, in the same order.
pub proof fn law_events_are_flattened_in_order(events: Seq<InboundView>, i: int)
    requires
        0 <= i < events.len(),
    ensures
        flattened_all(events).len() == events.len(),
        flattened_all(events)[i] == flattened(events[i], hosted_in(events.take(i)).len()),
{
}

/// The arena of a poll holds the states of the hosted actors it told of and of
/// nothing else, in the order they came: one more event adds its state at the
/// end where it is a hosted actor, and nothing where it is not.
pub proof fn law_the_arena_holds_the_hosted_actors(events: Seq<InboundView>, ev: InboundView)
    ensures
        hosted_in(seq![]) == Seq::<HostedActorView>::empty(),
        match ev {
            InboundView::Message { client: _, msg: MessageView::HostedActor(s) } => hosted_in(
                events.push(ev),
            ) == hosted_in(events).push(s),
            _ => hosted_in(events.push(ev)) == hosted_in(events),
        },
{
    assert(events.push(ev).drop_last() =~= events);
}

/// What the bridge sends decodes to what it was asked to send: the client and
/// the channel are on the frame, and its bytes read back as the message.
pub proof fn law_what_is_sent_reads_back(
    b: BridgeView,
    client: u64,
    channel: u8,
    msg: MessageView,
)
    requires
        msg.valid(),
    ensures
        ({
            let out = sent(b, client, channel, msg).inner.outbox;
            &&& out.len() == b.inner.outbox.len() + 1
            &&& out.drop_last() == b.inner.outbox
            &&& out.last().client == client
            &&& out.last().channel == channel
            &&& decoded(out.last().bytes) == Ok::<MessageView, WireError>(msg)
        }),
{
    law_decode_undoes_encode(msg);
    assert(sent(b, client, channel, msg).inner.outbox.drop_last() =~= b.inner.outbox);
}

} // verus!
