//! The wire contract. Every message that crosses the network is a variant of
//! [`Message`]. Ids are append-only. Collections are fixed-capacity so an
//! over-long input fails at decode, never later.
//!
//! Capacities are named constants chosen from the game; changing one is a
//! contract change and gets a new message id, not an edit.
//!
//! Every variant documents its direction, rung, idempotency, and the reason
//! codes the validator can emit for it. Reason codes cross the wire as the
//! `u16` in [`Message::Refuse`]; the numbering lives in the transport.
pub mod bounded;
pub mod cap;

use crate::scalar::F32;
use bounded::{
    deltas_as_slice, deltas_from_slice, hashes_as_slice, hashes_from_slice, name_as_str,
    name_from_str,
};
use cap::{INVENTORY_DELTA, MODS, NAME};
use vstd::prelude::*;
use vstd::utf8::encode_utf8;

verus! {

/// Bump when any variant changes shape. Clients with a different value are
/// refused at `Hello` (`E_VAL_SCHEMA_VERSION`).
pub const SCHEMA_VERSION: u16 = 1;

/// Newtype over an engine form id. Validated against the server's load order
/// before it is used as a key anywhere.
#[derive(Clone, Copy, Debug, PartialEq, Eq, Structural)]
pub struct FormId(pub u32);

/// Server-assigned client id; never client-supplied.
#[derive(Clone, Copy, Debug, PartialEq, Eq, Structural)]
pub struct ClientId(pub u64);

/// Position and rotation in engine units. Bounds are enforced by the
/// validator, not here; this type only has to be representable.
#[derive(Clone, Copy, Debug, PartialEq)]
pub struct Transform {
    /// World x, engine units.
    pub x: F32,
    /// World y, engine units.
    pub y: F32,
    /// World z, engine units.
    pub z: F32,
    /// Heading, radians.
    pub yaw: F32,
    /// Look pitch, radians.
    pub pitch: F32,
}

/// Session family, client to server, rung R0: the server decides everything
/// about a session. Sent once per connection; a second `Hello` on a live
/// connection is a protocol error the server closes on. Reason codes:
/// `E_VAL_SCHEMA_VERSION`.
#[derive(Debug, PartialEq)]
pub struct Hello {
    /// Must equal [`SCHEMA_VERSION`].
    pub schema_version: u16,
    /// Build number of the client stack, compared against the server's allowlist.
    pub client_build: u32,
    /// Hash per mod in load order; the server compares against its own.
    pub mod_hashes: heapless::Vec<u64, MODS>,
    /// Display name the player asked for; the server may rename.
    pub name: heapless::String<NAME>,
}

/// Intent family, client to server, rung R1. Sent at the client's sample rate
/// on the Unreliable channel; safe to receive twice: the newest `seq` wins and
/// anything not newer than the last accepted sample is dropped. Reason codes:
/// `E_VAL_NONFINITE`, `E_VAL_OUT_OF_WORLD`, `E_VAL_SEQ_REPLAY`, `E_VAL_RATE`.
#[derive(Clone, Copy, Debug, PartialEq)]
pub struct MovementSample {
    /// Monotonic per client; the validator drops anything not newer.
    pub seq: u32,
    /// The actor moved; ownership is checked by the server, not here.
    pub actor: FormId,
    /// Where the actor is now.
    pub transform: Transform,
    /// Running flag as the engine reports it.
    pub run: bool,
    /// Sneaking flag as the engine reports it.
    pub sneak: bool,
}

/// Intent family, client to server, rung R1. Rides ReliableUnordered, so it
/// may arrive out of order; idempotent on `seq` inside a 64-wide replay
/// window. Reason codes: `E_VAL_SEQ_REPLAY`, `E_VAL_RATE`.
#[derive(Clone, Copy, Debug, PartialEq)]
pub struct HitIntent {
    /// Per-client hit counter; a repeat inside the window is dropped.
    pub seq: u32,
    /// Who swung.
    pub attacker: FormId,
    /// Who was hit, as the client saw it; the server re-checks range and angle.
    pub target: FormId,
    /// Weapon form used, or the unarmed form.
    pub weapon: FormId,
    /// Power attack flag.
    pub power_attack: bool,
    /// Client's estimate of when it saw the hit, for lag compensation.
    pub client_time_ms: u32,
}

/// One inventory change. Positive count adds, negative removes; the server
/// decides whether it happens (R0). A zero count is invalid
/// (`E_VAL_ZERO_DELTA`).
#[derive(Clone, Copy, Debug, PartialEq)]
pub struct ItemDelta {
    /// The item form.
    pub item: FormId,
    /// Signed count; never zero.
    pub count: i32,
}

/// Record family, host client to server, rung R2: the cell host reports an
/// NPC it simulates. Rides ReliableUnordered; the server keeps the latest per
/// actor, so a duplicate is harmless. Reason codes: `E_VAL_NONFINITE`,
/// `E_VAL_OUT_OF_WORLD`, `E_VAL_ZERO_DELTA`.
#[derive(Debug, PartialEq)]
pub struct HostedActorState {
    /// The NPC.
    pub actor: FormId,
    /// Where the host's engine has it.
    pub transform: Transform,
    /// Current health as the host's engine has it.
    pub health: F32,
    /// Inventory changes since the last report.
    pub inventory_delta: heapless::Vec<ItemDelta, INVENTORY_DELTA>,
}

/// Every message on the wire. Variant order is the id; append only.
#[derive(Debug, PartialEq)]
#[non_exhaustive]
pub enum Message {
    /// Client to server, R0. See [`Hello`].
    Hello(Hello),
    /// Server to client, R0. Answers `Hello`; sent once per connection.
    Welcome {
        /// The id the server will use for this client.
        client_id: ClientId,
        /// Server clock at send time, milliseconds.
        server_time_ms: u64,
    },
    /// Server to client, R0. Why the server is dropping the connection; the
    /// code is a transport reason code. Sent at most once.
    Refuse {
        /// Reason code.
        reason: u16,
    },
    /// Client to server, R1. See [`MovementSample`].
    Movement(MovementSample),
    /// Client to server, R1. See [`HitIntent`].
    Hit(HitIntent),
    /// Host to server, R2. See [`HostedActorState`].
    HostedActor(HostedActorState),
    /// Server to clients, R0 output: one applied inventory change for clients
    /// to render. The server sends each applied delta exactly once over
    /// ReliableUnordered; clients apply what they receive.
    InventoryApply {
        /// Whose inventory.
        owner: FormId,
        /// The change.
        delta: ItemDelta,
    },
    /// Server to one client, R0 output: you now host `cell`. Idempotent.
    HostGrant {
        /// The cell form.
        cell: FormId,
    },
    /// Server to one client, R0 output: stop hosting `cell`. Idempotent.
    HostRelease {
        /// The cell form.
        cell: FormId,
    },
}

/// What a [`Hello`] says, with its collections as sequences.
#[verifier::ext_equal]
pub struct HelloView {
    pub schema_version: u16,
    pub client_build: u32,
    pub mod_hashes: Seq<u64>,
    pub name: Seq<char>,
}

/// What a [`HostedActorState`] says, with its collection as a sequence.
#[verifier::ext_equal]
pub struct HostedActorView {
    pub actor: FormId,
    pub transform: Transform,
    pub health: F32,
    pub inventory_delta: Seq<ItemDelta>,
}

/// What a [`Message`] says, with its collections as sequences.
#[verifier::ext_equal]
pub enum MessageView {
    Hello(HelloView),
    Welcome { client_id: ClientId, server_time_ms: u64 },
    Refuse { reason: u16 },
    Movement(MovementSample),
    Hit(HitIntent),
    HostedActor(HostedActorView),
    InventoryApply { owner: FormId, delta: ItemDelta },
    HostGrant { cell: FormId },
    HostRelease { cell: FormId },
}

impl MessageView {
    /// The collections are within their capacities.
    pub open spec fn valid(self) -> bool {
        match self {
            MessageView::Hello(h) => h.mod_hashes.len() <= MODS && encode_utf8(h.name).len()
                <= NAME,
            MessageView::HostedActor(s) => s.inventory_delta.len() <= INVENTORY_DELTA,
            _ => true,
        }
    }

    /// The variant's name.
    pub open spec fn name(self) -> Seq<char> {
        match self {
            MessageView::Hello(_) => "Hello"@,
            MessageView::Welcome { .. } => "Welcome"@,
            MessageView::Refuse { .. } => "Refuse"@,
            MessageView::Movement(_) => "Movement"@,
            MessageView::Hit(_) => "Hit"@,
            MessageView::HostedActor(_) => "HostedActor"@,
            MessageView::InventoryApply { .. } => "InventoryApply"@,
            MessageView::HostGrant { .. } => "HostGrant"@,
            MessageView::HostRelease { .. } => "HostRelease"@,
        }
    }
}

impl View for Hello {
    type V = HelloView;

    open spec fn view(&self) -> HelloView {
        HelloView {
            schema_version: self.schema_version,
            client_build: self.client_build,
            mod_hashes: bounded::hash_list(self.mod_hashes),
            name: bounded::name_chars(self.name),
        }
    }
}

impl View for HostedActorState {
    type V = HostedActorView;

    open spec fn view(&self) -> HostedActorView {
        HostedActorView {
            actor: self.actor,
            transform: self.transform,
            health: self.health,
            inventory_delta: bounded::delta_list(self.inventory_delta),
        }
    }
}

impl View for Message {
    type V = MessageView;

    open spec fn view(&self) -> MessageView {
        match *self {
            Message::Hello(h) => MessageView::Hello(h@),
            Message::Welcome { client_id, server_time_ms } => MessageView::Welcome {
                client_id,
                server_time_ms,
            },
            Message::Refuse { reason } => MessageView::Refuse { reason },
            Message::Movement(m) => MessageView::Movement(m),
            Message::Hit(h) => MessageView::Hit(h),
            Message::HostedActor(s) => MessageView::HostedActor(s@),
            Message::InventoryApply { owner, delta } => MessageView::InventoryApply {
                owner,
                delta,
            },
            Message::HostGrant { cell } => MessageView::HostGrant { cell },
            Message::HostRelease { cell } => MessageView::HostRelease { cell },
        }
    }
}

impl Clone for Hello {
    fn clone(&self) -> (r: Hello)
        ensures
            r@ == self@,
    {
        let hashes = hashes_as_slice(&self.mod_hashes);
        let name = name_as_str(&self.name);
        Hello {
            schema_version: self.schema_version,
            client_build: self.client_build,
            mod_hashes: hashes_from_slice(hashes).unwrap(),
            name: name_from_str(name).unwrap(),
        }
    }
}

impl Clone for HostedActorState {
    fn clone(&self) -> (r: HostedActorState)
        ensures
            r@ == self@,
    {
        let deltas = deltas_as_slice(&self.inventory_delta);
        HostedActorState {
            actor: self.actor,
            transform: self.transform,
            health: self.health,
            inventory_delta: deltas_from_slice(deltas).unwrap(),
        }
    }
}

impl Clone for Message {
    fn clone(&self) -> (r: Message)
        ensures
            r@ == self@,
    {
        match self {
            Message::Hello(h) => Message::Hello(h.clone()),
            Message::Welcome { client_id, server_time_ms } => Message::Welcome {
                client_id: *client_id,
                server_time_ms: *server_time_ms,
            },
            Message::Refuse { reason } => Message::Refuse { reason: *reason },
            Message::Movement(m) => Message::Movement(*m),
            Message::Hit(h) => Message::Hit(*h),
            Message::HostedActor(s) => Message::HostedActor(s.clone()),
            Message::InventoryApply { owner, delta } => Message::InventoryApply {
                owner: *owner,
                delta: *delta,
            },
            Message::HostGrant { cell } => Message::HostGrant { cell: *cell },
            Message::HostRelease { cell } => Message::HostRelease { cell: *cell },
        }
    }
}

impl Message {
    /// Hard cap on the encoded size of any message, derived from the types: a
    /// one-byte id and the longest variant, a `Hello` whose two integers take
    /// three and five bytes, whose full list of hashes takes two bytes of
    /// length and ten for each, and whose full name takes one byte of length.
    /// The codec refuses inputs longer than this before decoding.
    pub const MAX_ENCODED_LEN: usize = 2626;

    /// Every message there is holds no more than its capacities.
    pub(crate) fn within_capacities(&self)
        ensures
            self@.valid(),
    {
        match self {
            Message::Hello(h) => {
                let _hashes = hashes_as_slice(&h.mod_hashes);
                let _name = name_as_str(&h.name);
            },
            Message::HostedActor(s) => {
                let _deltas = deltas_as_slice(&s.inventory_delta);
            },
            _ => {},
        }
    }

    /// The variant's name, for logs and comparisons.
    pub fn name(&self) -> (r: &'static str)
        ensures
            r@ == self@.name(),
    {
        match self {
            Message::Hello(_) => "Hello",
            Message::Welcome { .. } => "Welcome",
            Message::Refuse { .. } => "Refuse",
            Message::Movement(_) => "Movement",
            Message::Hit(_) => "Hit",
            Message::HostedActor(_) => "HostedActor",
            Message::InventoryApply { .. } => "InventoryApply",
            Message::HostGrant { .. } => "HostGrant",
            Message::HostRelease { .. } => "HostRelease",
        }
    }
}

/// The name of every message.
pub proof fn law_messages_have_their_names(m: MessageView)
    ensures
        m is Hello <==> m.name() == "Hello"@,
        m is Welcome <==> m.name() == "Welcome"@,
        m is Refuse <==> m.name() == "Refuse"@,
        m is Movement <==> m.name() == "Movement"@,
        m is Hit <==> m.name() == "Hit"@,
        m is HostedActor <==> m.name() == "HostedActor"@,
        m is InventoryApply <==> m.name() == "InventoryApply"@,
        m is HostGrant <==> m.name() == "HostGrant"@,
        m is HostRelease <==> m.name() == "HostRelease"@,
{
    reveal_strlit("Hello");
    reveal_strlit("Welcome");
    reveal_strlit("Refuse");
    reveal_strlit("Movement");
    reveal_strlit("Hit");
    reveal_strlit("HostedActor");
    reveal_strlit("InventoryApply");
    reveal_strlit("HostGrant");
    reveal_strlit("HostRelease");
    assert("Hello"@.len() == 5);
    assert("Welcome"@.len() == 7);
    assert("Refuse"@.len() == 6);
    assert("Movement"@.len() == 8);
    assert("Hit"@.len() == 3);
    assert("HostedActor"@.len() == 11);
    assert("InventoryApply"@.len() == 14);
    assert("HostGrant"@.len() == 9);
    assert("HostRelease"@.len() == 11);
    assert("HostedActor"@[4] == 'e');
    assert("HostRelease"@[4] == 'R');
}

/// The view of a message is of the same variant and says its fields, each
/// collection as the sequence of what it holds.
pub proof fn law_views_say_the_fields(m: Message)
    ensures
        match m {
            Message::Hello(h) => m@ matches MessageView::Hello(v) && v.schema_version
                == h.schema_version && v.client_build == h.client_build && v.mod_hashes
                == bounded::hash_list(h.mod_hashes) && v.name == bounded::name_chars(h.name),
            Message::Welcome { client_id, server_time_ms } => m@ == (MessageView::Welcome {
                client_id,
                server_time_ms,
            }),
            Message::Refuse { reason } => m@ == (MessageView::Refuse { reason }),
            Message::Movement(s) => m@ == MessageView::Movement(s),
            Message::Hit(h) => m@ == MessageView::Hit(h),
            Message::HostedActor(s) => m@ matches MessageView::HostedActor(v) && v.actor == s.actor
                && v.transform == s.transform && v.health == s.health && v.inventory_delta
                == bounded::delta_list(s.inventory_delta),
            Message::InventoryApply { owner, delta } => m@ == (MessageView::InventoryApply {
                owner,
                delta,
            }),
            Message::HostGrant { cell } => m@ == (MessageView::HostGrant { cell }),
            Message::HostRelease { cell } => m@ == (MessageView::HostRelease { cell }),
        },
{
}

} // verus!
