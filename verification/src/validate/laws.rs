//! What holds of the validator over any run of messages.
use super::bucket::{
    law_bucket_never_exceeds_capacity, law_credit_follows_the_clock, lemma_bound,
    lemma_tokens_are_due, TokenBucket,
};
use super::{guard_after, lemma_world_bound, verdict, GuardView, Reject};
use crate::scalar::{lemma_magnitude_order, F32};
use crate::schema::{HitIntent, HostedActorView, MessageView, MovementSample, Transform};
use vstd::arithmetic::power2::pow2;
use vstd::prelude::*;

verus! {

/// The guard after a run of messages, each with the time it came at.
pub open spec fn guard_after_all(guard: GuardView, inputs: Seq<(MessageView, u64)>) -> GuardView
    decreases inputs.len(),
{
    if inputs.len() == 0 {
        guard
    } else {
        let (m, now_ms) = inputs.last();
        guard_after(m, guard_after_all(guard, inputs.drop_last()), now_ms)
    }
}

/// The two families that have a budget.
pub enum Family {
    Movement,
    Hit,
}

impl Family {
    pub open spec fn budget(self, guard: GuardView) -> TokenBucket {
        match self {
            Family::Movement => guard.movement_budget,
            Family::Hit => guard.hit_budget,
        }
    }

    pub open spec fn holds(self, m: MessageView) -> bool {
        match self {
            Family::Movement => m is Movement,
            Family::Hit => m is Hit,
        }
    }
}

/// How many messages of a family a run gets accepted.
pub open spec fn accepted(
    family: Family,
    guard: GuardView,
    inputs: Seq<(MessageView, u64)>,
) -> nat
    decreases inputs.len(),
{
    if inputs.len() == 0 {
        0
    } else {
        let (m, now_ms) = inputs.last();
        let before = guard_after_all(guard, inputs.drop_last());
        accepted(family, guard, inputs.drop_last()) + if family.holds(m) && verdict(
            m,
            before,
            now_ms,
        ) is None {
            1nat
        } else {
            0nat
        }
    }
}

/// No message takes a guard out of its invariant, and a new guard is in it.
pub proof fn law_guard_stays_well_formed(m: MessageView, guard: GuardView, now_ms: u64)
    requires
        guard.wf(),
    ensures
        guard_after(m, guard, now_ms).wf(),
        GuardView::fresh().wf(),
{
    law_bucket_never_exceeds_capacity(guard.movement_budget, now_ms);
    law_bucket_never_exceeds_capacity(guard.hit_budget, now_ms);
}

/// A rejected message leaves the guard as it was, unless it was rejected for
/// its rate; and then a movement still leaves the last accepted `seq` alone.
pub proof fn law_rejection_leaves_the_guard(m: MessageView, guard: GuardView, now_ms: u64)
    ensures
        verdict(m, guard, now_ms) matches Some(e) && e != Reject::Rate ==> guard_after(
            m,
            guard,
            now_ms,
        ) == guard,
        verdict(m, guard, now_ms) is Some ==> {
            &&& guard_after(m, guard, now_ms).last_movement_seq == guard.last_movement_seq
            &&& guard_after(m, guard, now_ms).movement_primed == guard.movement_primed
        },
{
}

/// Movements never touch what hits are held to, hits never touch what
/// movements are held to, and no other message touches the guard.
pub proof fn law_families_are_apart(m: MessageView, guard: GuardView, now_ms: u64)
    ensures
        ({
            let after = guard_after(m, guard, now_ms);
            &&& !(m is Hit) ==> after.hit_budget == guard.hit_budget && after.hit_window
                == guard.hit_window
            &&& !(m is Movement) ==> after.movement_budget == guard.movement_budget
                && after.last_movement_seq == guard.last_movement_seq && after.movement_primed
                == guard.movement_primed
        }),
{
}

/// Only movements and hits depend on the guard or the clock.
pub proof fn law_shape_needs_no_state(
    m: MessageView,
    g1: GuardView,
    t1: u64,
    g2: GuardView,
    t2: u64,
)
    requires
        !(m is Movement),
        !(m is Hit),
    ensures
        verdict(m, g1, t1) == verdict(m, g2, t2),
{
}

proof fn lemma_stale_stays(guard: GuardView, inputs: Seq<(MessageView, u64)>, seq: u32)
    requires
        guard.stale(seq),
    ensures
        guard_after_all(guard, inputs).stale(seq),
    decreases inputs.len(),
{
    if inputs.len() > 0 {
        lemma_stale_stays(guard, inputs.drop_last(), seq);
    }
}

/// Movement is monotonic: once a sample is accepted, no sample with the same
/// or a lower `seq` is accepted again, whatever comes in between.
pub proof fn law_movement_is_monotonic(
    guard: GuardView,
    first: MovementSample,
    first_ms: u64,
    between: Seq<(MessageView, u64)>,
    second: MovementSample,
    second_ms: u64,
)
    requires
        verdict(MessageView::Movement(first), guard, first_ms) is None,
        second.seq <= first.seq,
    ensures
        ({
            let before = guard_after_all(
                guard_after(MessageView::Movement(first), guard, first_ms),
                between,
            );
            let v = verdict(MessageView::Movement(second), before, second_ms);
            &&& v is Some
            &&& super::transform_fault(second.transform) is None ==> v == Some(Reject::SeqReplay)
        }),
{
    lemma_stale_stays(
        guard_after(MessageView::Movement(first), guard, first_ms),
        between,
        second.seq,
    );
}

proof fn lemma_window_stays(guard: GuardView, inputs: Seq<(MessageView, u64)>, seq: u32)
    requires
        guard.hit_window.wf(),
        !guard.hit_window.accepts(seq),
    ensures
        guard_after_all(guard, inputs).hit_window.wf(),
        !guard_after_all(guard, inputs).hit_window.accepts(seq),
    decreases inputs.len(),
{
    if inputs.len() > 0 {
        lemma_window_stays(guard, inputs.drop_last(), seq);
    }
}

/// A hit `seq` counts once: after a hit was offered, whether it was accepted,
/// refused as a replay or refused for its rate, every later hit with the same
/// `seq` is a replay, whatever comes in between.
pub proof fn law_hits_count_once(
    guard: GuardView,
    first: HitIntent,
    first_ms: u64,
    between: Seq<(MessageView, u64)>,
    second: HitIntent,
    second_ms: u64,
)
    requires
        guard.wf(),
        second.seq == first.seq,
    ensures
        ({
            let before = guard_after_all(
                guard_after(MessageView::Hit(first), guard, first_ms),
                between,
            );
            verdict(MessageView::Hit(second), before, second_ms) == Some(Reject::SeqReplay)
        }),
{
    law_guard_stays_well_formed(MessageView::Hit(first), guard, first_ms);
    lemma_window_stays(
        guard_after(MessageView::Hit(first), guard, first_ms),
        between,
        second.seq,
    );
}

/// The rate limit over a run: as long as no message comes later than `until`,
/// the accepted messages of a family are at most the tokens in its budget and
/// what the time since the last refill is worth, or less than one more. A new
/// guard holds sixty tokens and gets sixty per second.
pub proof fn law_accepted_messages_are_within_rate(
    family: Family,
    guard: GuardView,
    inputs: Seq<(MessageView, u64)>,
    until: u64,
)
    requires
        guard.wf(),
        family.budget(guard).last_refill_ms <= until,
        forall|i: int| 0 <= i < inputs.len() ==> (#[trigger] inputs[i]).1 <= until,
    ensures
        ({
            let budget = family.budget(guard);
            accepted(family, guard, inputs) * 1000 < budget.tokens * 1000 + (until
                - budget.last_refill_ms) * budget.refill_per_s + 1000
        }),
{
    lemma_run_is_due(family, guard, inputs, until);
    lemma_bound(
        family.budget(guard),
        family.budget(guard_after_all(guard, inputs)),
        until,
    );
}

proof fn lemma_run_is_due(
    family: Family,
    guard: GuardView,
    inputs: Seq<(MessageView, u64)>,
    until: u64,
)
    requires
        guard.wf(),
        family.budget(guard).last_refill_ms <= until,
        forall|i: int| 0 <= i < inputs.len() ==> (#[trigger] inputs[i]).1 <= until,
    ensures
        ({
            let budget = family.budget(guard);
            let after = family.budget(guard_after_all(guard, inputs));
            &&& guard_after_all(guard, inputs).wf()
            &&& after.refill_per_s == budget.refill_per_s
            &&& after.last_refill_ms <= until
            &&& accepted(family, guard, inputs) + after.tokens + budget.due() <= budget.tokens
                + after.due()
        }),
    decreases inputs.len(),
{
    if inputs.len() > 0 {
        let init = inputs.drop_last();
        let (m, now_ms) = inputs.last();
        lemma_run_is_due(family, guard, init, until);
        let before = guard_after_all(guard, init);
        let b0 = family.budget(before);
        let b1 = family.budget(guard_after(m, before, now_ms));
        law_guard_stays_well_formed(m, before, now_ms);
        law_bucket_never_exceeds_capacity(b0, now_ms);
        law_credit_follows_the_clock(b0, now_ms);
        lemma_tokens_are_due(b0, now_ms);
        assert(b1 == b0 || b1 == b0.taken(now_ms));
    }
}

/// The exponent field of a bit pattern is not all ones: neither an infinity nor
/// not-a-number.
pub open spec fn is_number(v: F32) -> bool {
    (v.bits / 0x80_0000) % 256 != 255
}

/// The five floats of a transform are numbers.
pub open spec fn all_numbers(t: Transform) -> bool {
    is_number(t.x) && is_number(t.y) && is_number(t.z) && is_number(t.yaw) && is_number(t.pitch)
}

/// The bit pattern without its sign is not above that of a million.
pub open spec fn within_a_million(v: F32) -> bool {
    v.bits % 0x8000_0000 <= 0x4974_2400
}

/// The position of a transform is within the world on every axis.
pub open spec fn in_the_world(t: Transform) -> bool {
    within_a_million(t.x) && within_a_million(t.y) && within_a_million(t.z)
}

/// The bits say it right: for a number, the pattern is not above that of a
/// million exactly when the absolute value is at most a million.
pub proof fn law_bits_bound_the_world(v: F32)
    requires
        is_number(v),
    ensures
        within_a_million(v) <==> v.magnitude() <= 1_000_000 * pow2(149),
{
    let bound = F32 { bits: 0x4974_2400 };
    lemma_world_bound();
    lemma_magnitude_order(v, bound);
    lemma_magnitude_order(bound, v);
}

proof fn lemma_placed(t: Transform)
    ensures
        super::transform_fault(t) == if !all_numbers(t) {
            Some(Reject::NonFinite)
        } else if !in_the_world(t) {
            Some(Reject::OutOfWorld)
        } else {
            None
        },
{
    if all_numbers(t) {
        law_bits_bound_the_world(t.x);
        law_bits_bound_the_world(t.y);
        law_bits_bound_the_world(t.z);
    }
}

/// The transform of a movement and of a hosted actor is checked, whatever else
/// the message holds: one that is accepted has five numbers in it and a position
/// within the world; one with an infinity or not-a-number is rejected for that;
/// one of numbers only with a coordinate outside the world is rejected for that.
pub proof fn law_transforms_are_checked(m: MessageView, guard: GuardView, now_ms: u64, t: Transform)
    requires
        match m {
            MessageView::Movement(s) => s.transform == t,
            MessageView::HostedActor(s) => s.transform == t,
            _ => false,
        },
    ensures
        verdict(m, guard, now_ms) is None ==> all_numbers(t) && in_the_world(t),
        !all_numbers(t) ==> verdict(m, guard, now_ms) == Some(Reject::NonFinite),
        all_numbers(t) && !in_the_world(t) ==> verdict(m, guard, now_ms) == Some(
            Reject::OutOfWorld,
        ),
        all_numbers(t) && in_the_world(t) ==> verdict(m, guard, now_ms) != Some(Reject::OutOfWorld),
{
    lemma_placed(t);
}

/// A hosted actor whose transform is in order is rejected exactly when its
/// health is no number, or it is one and some inventory change is of zero; the
/// first comes first.
pub proof fn law_hosted_actors_are_checked(s: HostedActorView, guard: GuardView, now_ms: u64)
    requires
        all_numbers(s.transform),
        in_the_world(s.transform),
    ensures
        ({
            let v = verdict(MessageView::HostedActor(s), guard, now_ms);
            let zero = exists|i: int|
                0 <= i < s.inventory_delta.len() && (#[trigger] s.inventory_delta[i]).count == 0;
            &&& v == Some(Reject::NonFinite) <==> !is_number(s.health)
            &&& v == Some(Reject::ZeroDelta) <==> is_number(s.health) && zero
            &&& v is None <==> is_number(s.health) && !zero
        }),
{
    lemma_placed(s.transform);
}

/// A movement whose transform is in order is rejected as a replay exactly when a
/// movement with its `seq` or a higher one was the last accepted, for its rate
/// exactly when it is none and the budget has nothing left, and for nothing else.
pub proof fn law_movements_are_checked(m: MovementSample, guard: GuardView, now_ms: u64)
    requires
        all_numbers(m.transform),
        in_the_world(m.transform),
    ensures
        ({
            let v = verdict(MessageView::Movement(m), guard, now_ms);
            let replay = guard.movement_primed && m.seq <= guard.last_movement_seq;
            &&& v == Some(Reject::SeqReplay) <==> replay
            &&& v == Some(Reject::Rate) <==> !replay && !guard.movement_budget.grants(now_ms)
            &&& v is None <==> !replay && guard.movement_budget.grants(now_ms)
        }),
{
    lemma_placed(m.transform);
}

/// A hit is rejected as a replay exactly when its `seq` was seen, or is 64 or
/// more below the highest seen, for its rate exactly when it is none and the
/// budget has nothing left, and for nothing else.
pub proof fn law_hits_are_checked(h: HitIntent, guard: GuardView, now_ms: u64)
    ensures
        ({
            let v = verdict(MessageView::Hit(h), guard, now_ms);
            let replay = guard.hit_window.seen.contains(h.seq) || (
            guard.hit_window.top matches Some(top) && h.seq + 64 <= top);
            &&& v == Some(Reject::SeqReplay) <==> replay
            &&& v == Some(Reject::Rate) <==> !replay && !guard.hit_budget.grants(now_ms)
            &&& v is None <==> !replay && guard.hit_budget.grants(now_ms)
        }),
{
}

/// A greeting is rejected exactly when its schema version is not 1, and for that
/// alone; what a server sends is never rejected for its shape.
pub proof fn law_other_messages_are_checked(m: MessageView, guard: GuardView, now_ms: u64)
    ensures
        m matches MessageView::Hello(h) ==> {
            &&& verdict(m, guard, now_ms) is None <==> h.schema_version == 1
            &&& verdict(m, guard, now_ms) == Some(Reject::SchemaVersion) <==> h.schema_version != 1
        },
        m is Welcome || m is Refuse || m is InventoryApply || m is HostGrant || m is HostRelease
            ==> verdict(m, guard, now_ms) is None,
        verdict(m, guard, now_ms) == Some(Reject::SchemaVersion) ==> m is Hello,
        verdict(m, guard, now_ms) == Some(Reject::ZeroDelta) ==> m is HostedActor,
        verdict(m, guard, now_ms) == Some(Reject::Rate) ==> m is Movement || m is Hit,
        verdict(m, guard, now_ms) == Some(Reject::SeqReplay) ==> m is Movement || m is Hit,
{
}

/// What an accepted movement leaves: its `seq` is the last accepted, and its
/// family's budget was charged. One over its rate was a try too.
pub proof fn law_movements_are_charged(m: MovementSample, guard: GuardView, now_ms: u64)
    ensures
        ({
            let v = verdict(MessageView::Movement(m), guard, now_ms);
            let after = guard_after(MessageView::Movement(m), guard, now_ms);
            &&& v is None ==> after.movement_primed && after.last_movement_seq == m.seq
            &&& v is None || v == Some(Reject::Rate) ==> after.movement_budget
                == guard.movement_budget.taken(now_ms)
            &&& v is Some && v != Some(Reject::Rate) ==> after == guard
        }),
{
}

/// What a hit that is no replay leaves: its `seq` is seen, and its family's
/// budget was charged, whether the budget had anything left or not.
pub proof fn law_hits_are_charged(h: HitIntent, guard: GuardView, now_ms: u64)
    requires
        guard.wf(),
    ensures
        ({
            let v = verdict(MessageView::Hit(h), guard, now_ms);
            let after = guard_after(MessageView::Hit(h), guard, now_ms);
            &&& v is None || v == Some(Reject::Rate) ==> {
                &&& after.hit_budget == guard.hit_budget.taken(now_ms)
                &&& after.hit_window.seen.contains(h.seq)
                &&& after.hit_window == guard.hit_window.after(h.seq)
            }
            &&& v == Some(Reject::SeqReplay) ==> after == guard
        }),
{
}

/// A new guard accepts a first movement of any `seq` and a first hit of any
/// `seq`, at any time, and holds sixty tokens for either family, coming in at
/// sixty per second.
pub proof fn law_a_new_guard_is_open(m: MovementSample, h: HitIntent, now_ms: u64)
    requires
        all_numbers(m.transform),
        in_the_world(m.transform),
    ensures
        verdict(MessageView::Movement(m), GuardView::fresh(), now_ms) is None,
        verdict(MessageView::Hit(h), GuardView::fresh(), now_ms) is None,
        GuardView::fresh().movement_budget.tokens == 60,
        GuardView::fresh().movement_budget.capacity == 60,
        GuardView::fresh().movement_budget.refill_per_s == 60,
        GuardView::fresh().movement_budget.last_refill_ms == 0,
        GuardView::fresh().hit_budget == GuardView::fresh().movement_budget,
{
    lemma_placed(m.transform);
    super::bucket::law_a_try_takes_one_token(GuardView::fresh().movement_budget, now_ms);
    super::bucket::law_refill_is_worth_its_time(GuardView::fresh().movement_budget, now_ms);
}

} // verus!
