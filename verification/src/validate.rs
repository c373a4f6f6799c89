//! Structural validation. This module knows the shape of a legal message and
//! the rates a client may send them at. It does not know who owns what; that
//! is semantic validation and lives in the server behind the bridge.
//!
//! Every rejection has a reason code. The lab greps them. The validator is
//! pure: time comes in as `now_ms` from the caller's clock, and nothing here
//! can panic on any input.
pub mod bucket;
pub mod laws;
pub mod window;

pub use bucket::TokenBucket;
pub use window::ReplayWindow;

use crate::scalar::{lemma_magnitude_of_integer, F32};
use crate::schema::bounded::deltas_as_slice;
use crate::schema::{ItemDelta, Message, MessageView, Transform, SCHEMA_VERSION};
use vstd::arithmetic::power2::{lemma2_to64, pow2};
use vstd::prelude::*;
use window::WindowView;

verus! {

/// Rejection reasons. Stable names; append only.
#[derive(Clone, Copy, Debug, PartialEq, Eq, Structural)]
pub enum Reject {
    /// `Hello.schema_version` differs from [`SCHEMA_VERSION`].
    SchemaVersion,
    /// A float field is NaN or infinite.
    NonFinite,
    /// A position component lies outside [`WORLD_ABS_MAX`].
    OutOfWorld,
    /// The client's budget for this message family is spent.
    Rate,
    /// An inventory delta with a zero count.
    ZeroDelta,
    /// A sequence number already accepted, or too old to be checked.
    SeqReplay,
}

impl Reject {
    /// The reason code.
    pub open spec fn text(self) -> Seq<char> {
        match self {
            Reject::SchemaVersion => "E_VAL_SCHEMA_VERSION"@,
            Reject::NonFinite => "E_VAL_NONFINITE"@,
            Reject::OutOfWorld => "E_VAL_OUT_OF_WORLD"@,
            Reject::Rate => "E_VAL_RATE"@,
            Reject::ZeroDelta => "E_VAL_ZERO_DELTA"@,
            Reject::SeqReplay => "E_VAL_SEQ_REPLAY"@,
        }
    }

    /// The reason code as it is logged.
    pub fn to_string(&self) -> (r: String)
        ensures
            r@ == self.text(),
    {
        match *self {
            Reject::SchemaVersion => "E_VAL_SCHEMA_VERSION".to_owned(),
            Reject::NonFinite => "E_VAL_NONFINITE".to_owned(),
            Reject::OutOfWorld => "E_VAL_OUT_OF_WORLD".to_owned(),
            Reject::Rate => "E_VAL_RATE".to_owned(),
            Reject::ZeroDelta => "E_VAL_ZERO_DELTA".to_owned(),
            Reject::SeqReplay => "E_VAL_SEQ_REPLAY".to_owned(),
        }
    }
}

/// World bounds in engine units. Tamriel's worldspace fits comfortably; a
/// value outside this is a bug or a lie either way.
pub const WORLD_ABS_MAX: u32 = 1_000_000;

/// [`WORLD_ABS_MAX`] as a single-precision bit pattern.
pub const WORLD_ABS_MAX_BITS: u32 = 0x4974_2400;

/// Per-client state the validator needs: sequence tracking and token buckets.
/// Owned by the transport layer, one per connection.
#[derive(Debug)]
pub struct ClientGuard {
    /// Highest movement `seq` accepted; meaningful once `movement_primed`.
    pub last_movement_seq: u32,
    /// False until the first movement sample is accepted, so that a `seq` of
    /// zero is an ordinary value and not a hole in replay protection.
    pub movement_primed: bool,
    /// Budget for movement samples.
    pub movement_budget: TokenBucket,
    /// Budget for hit intents.
    pub hit_budget: TokenBucket,
    /// Replay window for hit `seq`, which may legally arrive out of order.
    pub hit_window: ReplayWindow,
}

/// What a [`ClientGuard`] holds.
#[verifier::ext_equal]
pub struct GuardView {
    pub last_movement_seq: u32,
    pub movement_primed: bool,
    pub movement_budget: TokenBucket,
    pub hit_budget: TokenBucket,
    pub hit_window: WindowView,
}

impl View for ClientGuard {
    type V = GuardView;

    open spec fn view(&self) -> GuardView {
        GuardView {
            last_movement_seq: self.last_movement_seq,
            movement_primed: self.movement_primed,
            movement_budget: self.movement_budget,
            hit_budget: self.hit_budget,
            hit_window: self.hit_window@,
        }
    }
}

impl GuardView {
    /// A guard before any message.
    pub open spec fn fresh() -> GuardView {
        let budget = TokenBucket {
            tokens: 60,
            capacity: 60,
            refill_per_s: 60,
            last_refill_ms: 0,
        };
        GuardView {
            last_movement_seq: 0,
            movement_primed: false,
            movement_budget: budget,
            hit_budget: budget,
            hit_window: WindowView::empty(),
        }
    }

    /// What every guard keeps.
    pub open spec fn wf(self) -> bool {
        self.movement_budget.wf() && self.hit_budget.wf() && self.hit_window.wf()
    }

    /// A movement `seq` not newer than the last accepted one.
    pub open spec fn stale(self, seq: u32) -> bool {
        self.movement_primed && seq <= self.last_movement_seq
    }
}

impl Default for ClientGuard {
    fn default() -> (r: Self)
        ensures
            r@ == GuardView::fresh(),
    {
        ClientGuard {
            last_movement_seq: 0,
            movement_primed: false,
            movement_budget: TokenBucket::default(),
            hit_budget: TokenBucket::default(),
            hit_window: ReplayWindow::default(),
        }
    }
}

impl Clone for ClientGuard {
    fn clone(&self) -> (r: Self)
        ensures
            r == *self,
    {
        ClientGuard {
            last_movement_seq: self.last_movement_seq,
            movement_primed: self.movement_primed,
            movement_budget: self.movement_budget.clone(),
            hit_budget: self.hit_budget.clone(),
            hit_window: self.hit_window,
        }
    }
}

/// An absolute value of more than [`WORLD_ABS_MAX`] engine units.
pub open spec fn outside_world(v: F32) -> bool {
    v.magnitude() > WORLD_ABS_MAX * pow2(149)
}

/// What is wrong with a transform, if anything. Not-a-number and infinity come
/// before the bounds.
pub open spec fn transform_fault(t: Transform) -> Option<Reject> {
    if !(t.x.finite() && t.y.finite() && t.z.finite() && t.yaw.finite() && t.pitch.finite()) {
        Some(Reject::NonFinite)
    } else if outside_world(t.x) || outside_world(t.y) || outside_world(t.z) {
        Some(Reject::OutOfWorld)
    } else {
        None
    }
}

/// An inventory change with a zero count is among these.
pub open spec fn some_zero(deltas: Seq<ItemDelta>) -> bool {
    exists|i: int| 0 <= i < deltas.len() && (#[trigger] deltas[i]).count == 0
}

/// Why a message is rejected, if it is, by a guard at a time.
pub open spec fn verdict(m: MessageView, guard: GuardView, now_ms: u64) -> Option<Reject> {
    match m {
        MessageView::Hello(h) => if h.schema_version != SCHEMA_VERSION {
            Some(Reject::SchemaVersion)
        } else {
            None
        },
        MessageView::Movement(s) => if transform_fault(s.transform) is Some {
            transform_fault(s.transform)
        } else if guard.stale(s.seq) {
            Some(Reject::SeqReplay)
        } else if !guard.movement_budget.grants(now_ms) {
            Some(Reject::Rate)
        } else {
            None
        },
        MessageView::Hit(h) => if !guard.hit_window.accepts(h.seq) {
            Some(Reject::SeqReplay)
        } else if !guard.hit_budget.grants(now_ms) {
            Some(Reject::Rate)
        } else {
            None
        },
        MessageView::HostedActor(s) => if transform_fault(s.transform) is Some {
            transform_fault(s.transform)
        } else if !s.health.finite() {
            Some(Reject::NonFinite)
        } else if some_zero(s.inventory_delta) {
            Some(Reject::ZeroDelta)
        } else {
            None
        },
        _ => None,
    }
}

/// The guard after a message. A movement that gets as far as the budget is
/// charged to it; a hit is marked as seen before it is charged, so one that is
/// over the rate cannot be sent again.
pub open spec fn guard_after(m: MessageView, guard: GuardView, now_ms: u64) -> GuardView {
    match m {
        MessageView::Movement(s) => if transform_fault(s.transform) is Some || guard.stale(s.seq) {
            guard
        } else {
            let charged = GuardView {
                movement_budget: guard.movement_budget.taken(now_ms),
                ..guard
            };
            if guard.movement_budget.grants(now_ms) {
                GuardView { last_movement_seq: s.seq, movement_primed: true, ..charged }
            } else {
                charged
            }
        },
        MessageView::Hit(h) => if !guard.hit_window.accepts(h.seq) {
            guard
        } else {
            GuardView {
                hit_window: guard.hit_window.after(h.seq),
                hit_budget: guard.hit_budget.taken(now_ms),
                ..guard
            }
        },
        _ => guard,
    }
}

/// The bit pattern of the bound is the bound.
proof fn lemma_world_bound()
    ensures
        ({
            let bound = F32 { bits: WORLD_ABS_MAX_BITS };
            &&& bound.finite()
            &&& bound.magnitude() == WORLD_ABS_MAX * pow2(149)
        }),
{
    let bound = F32 { bits: WORLD_ABS_MAX_BITS };
    lemma2_to64();
    assert(bound.exponent() == 146);
    assert(bound.fraction() == 7_611_392);
    lemma_magnitude_of_integer(bound, WORLD_ABS_MAX as nat, 4);
}

fn is_outside_world(v: F32) -> (r: bool)
    requires
        v.finite(),
    ensures
        r == outside_world(v),
{
    proof {
        lemma_world_bound();
    }
    v.abs_exceeds(F32::from_bits(WORLD_ABS_MAX_BITS))
}

fn check_transform(t: &Transform) -> (r: Result<(), Reject>)
    ensures
        match r {
            Ok(()) => transform_fault(*t) is None,
            Err(e) => transform_fault(*t) == Some(e),
        },
{
    if !(t.x.is_finite() && t.y.is_finite() && t.z.is_finite() && t.yaw.is_finite()
        && t.pitch.is_finite()) {
        return Err(Reject::NonFinite);
    }
    if is_outside_world(t.x) || is_outside_world(t.y) || is_outside_world(t.z) {
        return Err(Reject::OutOfWorld);
    }
    Ok(())
}

fn has_zero_delta(deltas: &[ItemDelta]) -> (r: bool)
    ensures
        r == some_zero(deltas@),
{
    let mut i: usize = 0;
    while i < deltas.len()
        invariant
            i <= deltas@.len(),
            forall|j: int| 0 <= j < i ==> (#[trigger] deltas@[j]).count != 0,
        decreases deltas@.len() - i,
    {
        if deltas[i].count == 0 {
            assert(deltas@[i as int].count == 0);
            return true;
        }
        i = i + 1;
    }
    false
}

/// Validate one inbound message against the client's guard state.
/// `Ok(())` means "well-formed and within rate"; ownership is checked later.
pub fn validate(msg: &Message, guard: &mut ClientGuard, now_ms: u64) -> (r: Result<(), Reject>)
    ensures
        match r {
            Ok(()) => verdict(msg@, old(guard)@, now_ms) is None,
            Err(e) => verdict(msg@, old(guard)@, now_ms) == Some(e),
        },
        final(guard)@ == guard_after(msg@, old(guard)@, now_ms),
{
    match msg {
        Message::Hello(h) => {
            if h.schema_version != SCHEMA_VERSION {
                return Err(Reject::SchemaVersion);
            }
            Ok(())
        },
        Message::Movement(m) => {
            check_transform(&m.transform)?;
            if guard.movement_primed && m.seq <= guard.last_movement_seq {
                return Err(Reject::SeqReplay);
            }
            if !guard.movement_budget.take(now_ms) {
                return Err(Reject::Rate);
            }
            guard.last_movement_seq = m.seq;
            guard.movement_primed = true;
            Ok(())
        },
        Message::Hit(h) => {
            if !guard.hit_window.accept(h.seq) {
                return Err(Reject::SeqReplay);
            }
            if !guard.hit_budget.take(now_ms) {
                return Err(Reject::Rate);
            }
            Ok(())
        },
        Message::HostedActor(s) => {
            check_transform(&s.transform)?;
            if !s.health.is_finite() {
                return Err(Reject::NonFinite);
            }
            if has_zero_delta(deltas_as_slice(&s.inventory_delta)) {
                return Err(Reject::ZeroDelta);
            }
            Ok(())
        },
        // Server-to-client messages arriving from a client are shape-valid
        // but semantically impossible; the transport rejects them by direction.
        _ => Ok(()),
    }
}

} // verus!
