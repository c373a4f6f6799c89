//! A mirror of [`Message`] with unbounded collections, for structured fuzzing
//! of the validator and, on the way, the codec: arbitrary but well-typed
//! messages through every validator path with a moving clock.
use crate::codec::{
    decode, encode, law_decode_undoes_encode, law_encoding_is_bounded, WireError,
};
use crate::scalar::F32;
use crate::schema::bounded::{deltas_from_slice, hashes_from_slice, name_from_str};
use crate::schema::cap::{INVENTORY_DELTA, MODS, NAME};
use crate::schema::{
    ClientId, FormId, Hello, HelloView, HitIntent, HostedActorState, HostedActorView, ItemDelta,
    Message, MessageView, MovementSample, Transform,
};
use crate::validate::laws::guard_after_all;
use crate::validate::{validate, ClientGuard, GuardView};
use vstd::prelude::*;
use vstd::string::StrSliceExecFns;
use vstd::utf8::encode_utf8;

verus! {

/// Mirror of [`Transform`].
#[derive(Clone, Copy, Debug)]
pub struct T {
    pub x: F32,
    pub y: F32,
    pub z: F32,
    pub yaw: F32,
    pub pitch: F32,
}

/// Mirror of [`Message`] with unbounded collections; the conversion truncates
/// to the schema's capacities so the fuzzer explores both sides of each cap.
#[derive(Debug)]
#[allow(inconsistent_fields)]
pub enum M {
    Hello { v: u16, build: u32, mods: Vec<u64>, name: String },
    Movement { seq: u32, actor: u32, t: T, run: bool, sneak: bool },
    Hit { seq: u32, a: u32, target: u32, w: u32, p: bool, ms: u32 },
    Hosted { actor: u32, t: T, health: F32, deltas: Vec<(u32, i32)> },
    Welcome { id: u64, t: u64 },
    Refuse { r: u16 },
    InventoryApply { owner: u32, item: u32, count: i32 },
    HostGrant { cell: u32 },
    HostRelease { cell: u32 },
}

pub open spec fn transform_of(t: T) -> Transform {
    Transform { x: t.x, y: t.y, z: t.z, yaw: t.yaw, pitch: t.pitch }
}

/// At most the first `n` elements.
pub open spec fn at_most<A>(s: Seq<A>, n: nat) -> Seq<A> {
    if s.len() <= n {
        s
    } else {
        s.take(n as int)
    }
}

/// The first `k` characters of a name and as many more as fit one by one.
pub open spec fn fit_from(name: Seq<char>, k: nat) -> Seq<char>
    decreases name.len() - k,
{
    if k < name.len() && encode_utf8(name.take(k as int + 1)).len() <= NAME {
        fit_from(name, k + 1)
    } else {
        name.take(k as int)
    }
}

/// The longest run of leading characters that fits a name.
pub open spec fn fitting_name(name: Seq<char>) -> Seq<char> {
    fit_from(name, 0)
}

pub open spec fn items_of(deltas: Seq<(u32, i32)>) -> Seq<ItemDelta> {
    Seq::new(
        deltas.len(),
        |i: int| ItemDelta { item: FormId(deltas[i].0), count: deltas[i].1 },
    )
}

/// The message that a mirror stands for.
pub open spec fn built(m: M) -> MessageView {
    match m {
        M::Hello { v, build, mods, name } => MessageView::Hello(
            HelloView {
                schema_version: v,
                client_build: build,
                mod_hashes: at_most(mods@, MODS as nat),
                name: fitting_name(name@),
            },
        ),
        M::Movement { seq, actor, t, run, sneak } => MessageView::Movement(
            MovementSample {
                seq,
                actor: FormId(actor),
                transform: transform_of(t),
                run,
                sneak,
            },
        ),
        M::Hit { seq, a, target, w, p, ms } => MessageView::Hit(
            HitIntent {
                seq,
                attacker: FormId(a),
                target: FormId(target),
                weapon: FormId(w),
                power_attack: p,
                client_time_ms: ms,
            },
        ),
        M::Hosted { actor, t, health, deltas } => MessageView::HostedActor(
            HostedActorView {
                actor: FormId(actor),
                transform: transform_of(t),
                health,
                inventory_delta: at_most(items_of(deltas@), INVENTORY_DELTA as nat),
            },
        ),
        M::Welcome { id, t } => MessageView::Welcome {
            client_id: ClientId(id),
            server_time_ms: t,
        },
        M::Refuse { r } => MessageView::Refuse { reason: r },
        M::InventoryApply { owner, item, count } => MessageView::InventoryApply {
            owner: FormId(owner),
            delta: ItemDelta { item: FormId(item), count },
        },
        M::HostGrant { cell } => MessageView::HostGrant { cell: FormId(cell) },
        M::HostRelease { cell } => MessageView::HostRelease { cell: FormId(cell) },
    }
}

/// A transform from its mirror.
pub fn tf(t: &T) -> (r: Transform)
    ensures
        r == transform_of(*t),
{
    Transform { x: t.x, y: t.y, z: t.z, yaw: t.yaw, pitch: t.pitch }
}

fn truncated_hashes(mods: &Vec<u64>) -> (r: heapless::Vec<u64, MODS>)
    ensures
        crate::schema::bounded::hash_list(r) == at_most(mods@, MODS as nat),
{
    let mut kept: Vec<u64> = Vec::new();
    let mut i: usize = 0;
    while i < mods.len() && i < MODS
        invariant
            i <= mods@.len(),
            i <= MODS,
            kept@ == mods@.take(i as int),
        decreases mods@.len() - i,
    {
        kept.push(mods[i]);
        i = i + 1;
        proof {
            assert(kept@ =~= mods@.take(i as int));
        }
    }
    proof {
        assert(mods@.take(mods@.len() as int) =~= mods@);
    }
    hashes_from_slice(kept.as_slice()).unwrap()
}

fn truncated_deltas(deltas: &Vec<(u32, i32)>) -> (r: heapless::Vec<ItemDelta, INVENTORY_DELTA>)
    ensures
        crate::schema::bounded::delta_list(r) == at_most(
            items_of(deltas@),
            INVENTORY_DELTA as nat,
        ),
{
    let mut kept: Vec<ItemDelta> = Vec::new();
    let mut i: usize = 0;
    let ghost all = items_of(deltas@);
    while i < deltas.len() && i < INVENTORY_DELTA
        invariant
            i <= deltas@.len(),
            i <= INVENTORY_DELTA,
            all == items_of(deltas@),
            kept@ == all.take(i as int),
        decreases deltas@.len() - i,
    {
        let (item, count) = deltas[i];
        kept.push(ItemDelta { item: FormId(item), count });
        i = i + 1;
        proof {
            assert(kept@ =~= all.take(i as int));
        }
    }
    proof {
        assert(all.take(all.len() as int) =~= all);
    }
    deltas_from_slice(kept.as_slice()).unwrap()
}

fn truncated_name(name: &str) -> (r: heapless::String<NAME>)
    ensures
        crate::schema::bounded::name_chars(r) == fitting_name(name@),
{
    let len: usize = name.unicode_len();
    let mut k: usize = 0;
    proof {
        assert(name@.subrange(0, 0) =~= seq![]);
        assert(name@.take(0) =~= seq![]);
        assert(encode_utf8(Seq::<char>::empty()).len() == 0);
    }
    let mut best = name_from_str(name.substring_char(0, 0)).unwrap();
    while k < len
        invariant
            k <= len,
            len == name@.len(),
            crate::schema::bounded::name_chars(best) == name@.take(k as int),
            fitting_name(name@) == fit_from(name@, k as nat),
        decreases len - k,
    {
        proof {
            assert(name@.subrange(0, k + 1) =~= name@.take(k + 1));
        }
        match name_from_str(name.substring_char(0, k + 1)) {
            Some(longer) => {
                best = longer;
            },
            None => {
                return best;
            },
        }
        k = k + 1;
    }
    best
}

/// A message from its mirror.
pub fn build(m: &M) -> (r: Message)
    ensures
        r@ == built(*m),
        r@.valid(),
{
    match m {
        M::Hello { v, build, mods, name } => {
            let h = Message::Hello(
                Hello {
                    schema_version: *v,
                    client_build: *build,
                    mod_hashes: truncated_hashes(mods),
                    name: truncated_name(name.as_str()),
                },
            );
            h.within_capacities();
            h
        },
        M::Movement { seq, actor, t, run, sneak } => Message::Movement(
            MovementSample {
                seq: *seq,
                actor: FormId(*actor),
                transform: tf(t),
                run: *run,
                sneak: *sneak,
            },
        ),
        M::Hit { seq, a, target, w, p, ms } => Message::Hit(
            HitIntent {
                seq: *seq,
                attacker: FormId(*a),
                target: FormId(*target),
                weapon: FormId(*w),
                power_attack: *p,
                client_time_ms: *ms,
            },
        ),
        M::Hosted { actor, t, health, deltas } => {
            let s = Message::HostedActor(
                HostedActorState {
                    actor: FormId(*actor),
                    transform: tf(t),
                    health: *health,
                    inventory_delta: truncated_deltas(deltas),
                },
            );
            s.within_capacities();
            s
        },
        M::Welcome { id, t } => Message::Welcome { client_id: ClientId(*id), server_time_ms: *t },
        M::Refuse { r } => Message::Refuse { reason: *r },
        M::InventoryApply { owner, item, count } => Message::InventoryApply {
            owner: FormId(*owner),
            delta: ItemDelta { item: FormId(*item), count: *count },
        },
        M::HostGrant { cell } => Message::HostGrant { cell: FormId(*cell) },
        M::HostRelease { cell } => Message::HostRelease { cell: FormId(*cell) },
    }
}

/// The time of each message: ticks add up, and sixteen stands in for those
/// that are missing. The clock stops at the largest `u64`.
pub open spec fn clock(ticks: Seq<u16>, n: nat) -> u64
    decreases n,
{
    if n == 0 {
        0
    } else {
        let tick: u16 = if n <= ticks.len() {
            ticks[n - 1]
        } else {
            16
        };
        crate::transport::later(clock(ticks, (n - 1) as nat), tick as u64)
    }
}

/// The messages with their times.
pub open spec fn timed(messages: Seq<M>, ticks: Seq<u16>) -> Seq<(MessageView, u64)> {
    Seq::new(messages.len(), |i: int| (built(messages[i]), clock(ticks, (i + 1) as nat)))
}

/// Encodes, decodes and encodes again: the message that came back, if both
/// encodings are the same bytes.
fn round_trip(msg: &Message) -> (r: Result<Message, WireError>)
    requires
        msg@.valid(),
    ensures
        r matches Ok(back) && back@ == msg@,
{
    proof {
        law_decode_undoes_encode(msg@);
        law_encoding_is_bounded(msg@);
    }
    let mut a: Vec<u8> = vec![0u8; Message::MAX_ENCODED_LEN];
    let first = match encode(msg, a.as_mut_slice()) {
        Ok(used) => used,
        Err(e) => {
            return Err(e);
        },
    };
    let back = match decode(first) {
        Ok(back) => back,
        Err(e) => {
            return Err(e);
        },
    };
    let mut b: Vec<u8> = vec![0u8; Message::MAX_ENCODED_LEN];
    let second = match encode(&back, b.as_mut_slice()) {
        Ok(used) => used,
        Err(e) => {
            return Err(e);
        },
    };
    if crate::codec::same_bytes(first, second) {
        Ok(back)
    } else {
        Err(WireError::NonCanonical)
    }
}

/// Sends every message through the validator at its time and through an
/// encode, decode, encode round trip. None fails; the guard comes back as the
/// messages left it.
pub fn exercise(messages: &Vec<M>, ticks: &Vec<u16>) -> (r: Result<ClientGuard, WireError>)
    ensures
        r matches Ok(guard) && guard@ == guard_after_all(
            GuardView::fresh(),
            timed(messages@, ticks@),
        ),
{
    let mut guard = ClientGuard::default();
    let mut now: u64 = 0;
    let mut i: usize = 0;
    let ghost all = timed(messages@, ticks@);
    proof {
        assert(all.take(0) =~= seq![]);
    }
    while i < messages.len()
        invariant
            i <= messages@.len(),
            all == timed(messages@, ticks@),
            now == clock(ticks@, i as nat),
            guard@ == guard_after_all(GuardView::fresh(), all.take(i as int)),
        decreases messages@.len() - i,
    {
        let tick: u16 = if i < ticks.len() {
            ticks[i]
        } else {
            16
        };
        now = now.saturating_add(tick as u64);
        let msg = build(&messages[i]);
        let _verdict = validate(&msg, &mut guard, now);
        match round_trip(&msg) {
            Ok(_) => {},
            Err(e) => {
                return Err(e);
            },
        }
        i = i + 1;
        proof {
            assert(all.take(i as int).drop_last() =~= all.take(i - 1));
            assert(all.take(i as int).last() == all[i - 1]);
        }
    }
    proof {
        assert(all.take(i as int) =~= all);
    }
    Ok(guard)
}

proof fn lemma_fit(name: Seq<char>, k: nat)
    requires
        k <= name.len(),
        k == 0 || encode_utf8(name.take(k as int)).len() <= NAME,
    ensures
        ({
            let fit = fit_from(name, k);
            &&& fit.len() <= name.len()
            &&& fit == name.take(fit.len() as int)
            &&& fit.len() == 0 || encode_utf8(fit).len() <= NAME
            &&& fit.len() < name.len() ==> encode_utf8(name.take(fit.len() as int + 1)).len() > NAME
        }),
    decreases name.len() - k,
{
    if k < name.len() && encode_utf8(name.take(k as int + 1)).len() <= NAME {
        lemma_fit(name, k + 1);
    }
}

/// A name is cut at the capacity and nowhere else: it is the front of the name,
/// its UTF-8 fits, and one character more would not.
pub proof fn law_names_are_cut_at_the_capacity(v: u16, build: u32, mods: Vec<u64>, name: String)
    ensures
        built(M::Hello { v, build, mods, name }) matches MessageView::Hello(h) && {
            &&& h.name.len() <= name@.len()
            &&& h.name == name@.take(h.name.len() as int)
            &&& h.name.len() == 0 || encode_utf8(h.name).len() <= NAME
            &&& h.name.len() < name@.len() ==> encode_utf8(
                name@.take(h.name.len() as int + 1),
            ).len() > NAME
        },
{
    lemma_fit(name@, 0);
}

/// Hashes and inventory changes are cut at the capacity and nowhere else, and
/// those that stay are the first ones, in order.
pub proof fn law_lists_are_cut_at_the_capacity(m: M, i: int)
    ensures
        m matches M::Hello { v, build, mods, name } ==> (built(m) matches MessageView::Hello(h) && {
            &&& h.schema_version == v
            &&& h.client_build == build
            &&& mods@.len() <= MODS ==> h.mod_hashes.len() == mods@.len()
            &&& mods@.len() > MODS ==> h.mod_hashes.len() == MODS
            &&& 0 <= i < h.mod_hashes.len() ==> h.mod_hashes[i] == mods@[i]
        }),
        m matches M::Hosted { actor, t, health, deltas } ==> (
        built(m) matches MessageView::HostedActor(s) && {
            &&& s.actor.0 == actor
            &&& s.health == health
            &&& deltas@.len() <= INVENTORY_DELTA ==> s.inventory_delta.len() == deltas@.len()
            &&& deltas@.len() > INVENTORY_DELTA ==> s.inventory_delta.len() == INVENTORY_DELTA
            &&& 0 <= i < s.inventory_delta.len() ==> s.inventory_delta[i].item.0 == deltas@[i].0
                && s.inventory_delta[i].count == deltas@[i].1
        }),
{
}

/// Every other field of a mirror is the field of the message that it stands for.
pub proof fn law_mirrors_keep_their_fields(m: M)
    ensures
        match m {
            M::Hello { .. } => built(m) is Hello,
            M::Movement { seq, actor, t, run, sneak } => built(m) matches MessageView::Movement(s)
                && s.seq == seq && s.actor.0 == actor && s.run == run && s.sneak == sneak
                && s.transform.x == t.x && s.transform.y == t.y && s.transform.z == t.z
                && s.transform.yaw == t.yaw && s.transform.pitch == t.pitch,
            M::Hit { seq, a, target, w, p, ms } => built(m) matches MessageView::Hit(h) && h.seq
                == seq && h.attacker.0 == a && h.target.0 == target && h.weapon.0 == w
                && h.power_attack == p && h.client_time_ms == ms,
            M::Hosted { actor, t, health, deltas } => built(m) matches MessageView::HostedActor(s)
                && s.transform.x == t.x && s.transform.y == t.y && s.transform.z == t.z
                && s.transform.yaw == t.yaw && s.transform.pitch == t.pitch,
            M::Welcome { id, t } => built(m) matches MessageView::Welcome {
                client_id,
                server_time_ms,
            } && client_id.0 == id && server_time_ms == t,
            M::Refuse { r } => built(m) matches MessageView::Refuse { reason } && reason == r,
            M::InventoryApply { owner, item, count } => built(
                m,
            ) matches MessageView::InventoryApply { owner: who, delta } && who.0 == owner
                && delta.item.0 == item && delta.count == count,
            M::HostGrant { cell } => built(m) matches MessageView::HostGrant { cell: c } && c.0
                == cell,
            M::HostRelease { cell } => built(m) matches MessageView::HostRelease { cell: c } && c.0
                == cell,
        },
{
}

/// Every message has its time, in order: the time of the one before and its own
/// tick, or sixteen milliseconds where it has none, and no time past the
/// largest `u64`.
pub proof fn law_ticks_add_up(messages: Seq<M>, ticks: Seq<u16>, i: int)
    requires
        0 <= i < messages.len(),
    ensures
        ({
            let all = timed(messages, ticks);
            let before = if i == 0 {
                0int
            } else {
                all[i - 1].1 as int
            };
            let sum = before + if i < ticks.len() {
                ticks[i] as int
            } else {
                16int
            };
            &&& all.len() == messages.len()
            &&& all[i].0 == built(messages[i])
            &&& all[i].1 == if sum <= u64::MAX {
                sum
            } else {
                u64::MAX as int
            }
        }),
{
    assert(clock(ticks, 0) == 0);
}

} // verus!
