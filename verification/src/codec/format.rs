//! The byte format of every message, as mathematics: what a message is written
//! as, and what a run of bytes reads as.
use crate::primitive::{
    flag, lemma_bool, lemma_i32, lemma_len, lemma_text, lemma_u16, lemma_u32, lemma_u64, read_bool,
    read_four, read_i32, read_len, read_text, read_u16, read_u32, read_u64, text, varint, zigzag,
    U32_MAX_LEN, U64_MAX_LEN,
};
use crate::scalar::{bits_of, le_bytes, lemma_le_bytes, F32};
use crate::schema::cap::{INVENTORY_DELTA, MODS, NAME};
use crate::schema::{
    ClientId, FormId, HelloView, HitIntent, HostedActorView, ItemDelta, Message, MessageView,
    MovementSample, Transform,
};
use vstd::prelude::*;
use vstd::utf8::encode_utf8;

verus! {

// ---------------------------------------------------------------------------
// Writing
// ---------------------------------------------------------------------------

pub open spec fn transform_bytes(t: Transform) -> Seq<u8> {
    le_bytes(t.x.bits) + le_bytes(t.y.bits) + le_bytes(t.z.bits) + le_bytes(t.yaw.bits) + le_bytes(
        t.pitch.bits,
    )
}

/// The elements one after the other, without their number.
pub open spec fn hash_bytes(hashes: Seq<u64>) -> Seq<u8>
    decreases hashes.len(),
{
    if hashes.len() == 0 {
        seq![]
    } else {
        hash_bytes(hashes.drop_last()) + varint(hashes.last() as nat)
    }
}

pub open spec fn item_bytes(d: ItemDelta) -> Seq<u8> {
    varint(d.item.0 as nat) + varint(zigzag(d.count))
}

/// The elements one after the other, without their number.
pub open spec fn delta_bytes(deltas: Seq<ItemDelta>) -> Seq<u8>
    decreases deltas.len(),
{
    if deltas.len() == 0 {
        seq![]
    } else {
        delta_bytes(deltas.drop_last()) + item_bytes(deltas.last())
    }
}

pub open spec fn hello_bytes(h: HelloView) -> Seq<u8> {
    varint(h.schema_version as nat) + varint(h.client_build as nat) + varint(h.mod_hashes.len())
        + hash_bytes(h.mod_hashes) + text(h.name)
}

pub open spec fn movement_bytes(m: MovementSample) -> Seq<u8> {
    varint(m.seq as nat) + varint(m.actor.0 as nat) + transform_bytes(m.transform) + flag(m.run)
        + flag(m.sneak)
}

pub open spec fn hit_bytes(h: HitIntent) -> Seq<u8> {
    varint(h.seq as nat) + varint(h.attacker.0 as nat) + varint(h.target.0 as nat) + varint(
        h.weapon.0 as nat,
    ) + flag(h.power_attack) + varint(h.client_time_ms as nat)
}

pub open spec fn hosted_bytes(s: HostedActorView) -> Seq<u8> {
    varint(s.actor.0 as nat) + transform_bytes(s.transform) + le_bytes(s.health.bits) + varint(
        s.inventory_delta.len(),
    ) + delta_bytes(s.inventory_delta)
}

/// A variant's id on the wire: its place in [`Message`].
pub open spec fn tag(m: MessageView) -> u32 {
    match m {
        MessageView::Hello(_) => 0,
        MessageView::Welcome { .. } => 1,
        MessageView::Refuse { .. } => 2,
        MessageView::Movement(_) => 3,
        MessageView::Hit(_) => 4,
        MessageView::HostedActor(_) => 5,
        MessageView::InventoryApply { .. } => 6,
        MessageView::HostGrant { .. } => 7,
        MessageView::HostRelease { .. } => 8,
    }
}

/// What follows the id.
pub open spec fn body(m: MessageView) -> Seq<u8> {
    match m {
        MessageView::Hello(h) => hello_bytes(h),
        MessageView::Welcome { client_id, server_time_ms } => varint(client_id.0 as nat) + varint(
            server_time_ms as nat,
        ),
        MessageView::Refuse { reason } => varint(reason as nat),
        MessageView::Movement(m) => movement_bytes(m),
        MessageView::Hit(h) => hit_bytes(h),
        MessageView::HostedActor(s) => hosted_bytes(s),
        MessageView::InventoryApply { owner, delta } => varint(owner.0 as nat) + item_bytes(delta),
        MessageView::HostGrant { cell } => varint(cell.0 as nat),
        MessageView::HostRelease { cell } => varint(cell.0 as nat),
    }
}

/// The canonical encoding of a message.
pub open spec fn encoding(m: MessageView) -> Seq<u8> {
    varint(tag(m) as nat) + body(m)
}

// ---------------------------------------------------------------------------
// Reading. Each takes its value off the front and hands back what follows.
// ---------------------------------------------------------------------------

pub open spec fn read_float(b: Seq<u8>) -> Option<(F32, Seq<u8>)> {
    match read_four(b) {
        Some((four, rest)) => Some((F32 { bits: bits_of(four) }, rest)),
        None => None,
    }
}

pub open spec fn read_form(b: Seq<u8>) -> Option<(FormId, Seq<u8>)> {
    match read_u32(b) {
        Some((v, rest)) => Some((FormId(v), rest)),
        None => None,
    }
}

pub open spec fn read_transform(b: Seq<u8>) -> Option<(Transform, Seq<u8>)> {
    match read_float(b) {
        Some((x, b1)) => match read_float(b1) {
            Some((y, b2)) => match read_float(b2) {
                Some((z, b3)) => match read_float(b3) {
                    Some((yaw, b4)) => match read_float(b4) {
                        Some((pitch, b5)) => Some((Transform { x, y, z, yaw, pitch }, b5)),
                        None => None,
                    },
                    None => None,
                },
                None => None,
            },
            None => None,
        },
        None => None,
    }
}

/// `n` hashes.
pub open spec fn read_hashes(b: Seq<u8>, n: nat) -> Option<(Seq<u64>, Seq<u8>)>
    decreases n,
{
    if n == 0 {
        Some((seq![], b))
    } else {
        match read_hashes(b, (n - 1) as nat) {
            Some((hashes, b1)) => match read_u64(b1) {
                Some((hash, b2)) => Some((hashes.push(hash), b2)),
                None => None,
            },
            None => None,
        }
    }
}

/// A list of hashes with its number in front, refused over capacity.
pub open spec fn read_hash_list(b: Seq<u8>) -> Option<(Seq<u64>, Seq<u8>)> {
    match read_len(b) {
        Some((n, b1)) => if n <= MODS {
            read_hashes(b1, n)
        } else {
            None
        },
        None => None,
    }
}

pub open spec fn read_item(b: Seq<u8>) -> Option<(ItemDelta, Seq<u8>)> {
    match read_form(b) {
        Some((item, b1)) => match read_i32(b1) {
            Some((count, b2)) => Some((ItemDelta { item, count }, b2)),
            None => None,
        },
        None => None,
    }
}

/// `n` inventory changes.
pub open spec fn read_deltas(b: Seq<u8>, n: nat) -> Option<(Seq<ItemDelta>, Seq<u8>)>
    decreases n,
{
    if n == 0 {
        Some((seq![], b))
    } else {
        match read_deltas(b, (n - 1) as nat) {
            Some((deltas, b1)) => match read_item(b1) {
                Some((delta, b2)) => Some((deltas.push(delta), b2)),
                None => None,
            },
            None => None,
        }
    }
}

/// A list of inventory changes with its number in front, refused over capacity.
pub open spec fn read_delta_list(b: Seq<u8>) -> Option<(Seq<ItemDelta>, Seq<u8>)> {
    match read_len(b) {
        Some((n, b1)) => if n <= INVENTORY_DELTA {
            read_deltas(b1, n)
        } else {
            None
        },
        None => None,
    }
}

/// A name, refused over capacity.
pub open spec fn read_name(b: Seq<u8>) -> Option<(Seq<char>, Seq<u8>)> {
    match read_text(b) {
        Some((name, rest)) => if encode_utf8(name).len() <= NAME {
            Some((name, rest))
        } else {
            None
        },
        None => None,
    }
}

pub open spec fn read_hello(b: Seq<u8>) -> Option<(HelloView, Seq<u8>)> {
    match read_u16(b) {
        Some((schema_version, b1)) => match read_u32(b1) {
            Some((client_build, b2)) => match read_hash_list(b2) {
                Some((mod_hashes, b3)) => match read_name(b3) {
                    Some((name, b4)) => Some(
                        (HelloView { schema_version, client_build, mod_hashes, name }, b4),
                    ),
                    None => None,
                },
                None => None,
            },
            None => None,
        },
        None => None,
    }
}

pub open spec fn read_movement(b: Seq<u8>) -> Option<(MovementSample, Seq<u8>)> {
    match read_u32(b) {
        Some((seq, b1)) => match read_form(b1) {
            Some((actor, b2)) => match read_transform(b2) {
                Some((transform, b3)) => match read_bool(b3) {
                    Some((run, b4)) => match read_bool(b4) {
                        Some((sneak, b5)) => Some(
                            (MovementSample { seq, actor, transform, run, sneak }, b5),
                        ),
                        None => None,
                    },
                    None => None,
                },
                None => None,
            },
            None => None,
        },
        None => None,
    }
}

pub open spec fn read_hit(b: Seq<u8>) -> Option<(HitIntent, Seq<u8>)> {
    match read_u32(b) {
        Some((seq, b1)) => match read_form(b1) {
            Some((attacker, b2)) => match read_form(b2) {
                Some((target, b3)) => match read_form(b3) {
                    Some((weapon, b4)) => match read_bool(b4) {
                        Some((power_attack, b5)) => match read_u32(b5) {
                            Some((client_time_ms, b6)) => Some(
                                (
                                    HitIntent {
                                        seq,
                                        attacker,
                                        target,
                                        weapon,
                                        power_attack,
                                        client_time_ms,
                                    },
                                    b6,
                                ),
                            ),
                            None => None,
                        },
                        None => None,
                    },
                    None => None,
                },
                None => None,
            },
            None => None,
        },
        None => None,
    }
}

pub open spec fn read_hosted(b: Seq<u8>) -> Option<(HostedActorView, Seq<u8>)> {
    match read_form(b) {
        Some((actor, b1)) => match read_transform(b1) {
            Some((transform, b2)) => match read_float(b2) {
                Some((health, b3)) => match read_delta_list(b3) {
                    Some((inventory_delta, b4)) => Some(
                        (HostedActorView { actor, transform, health, inventory_delta }, b4),
                    ),
                    None => None,
                },
                None => None,
            },
            None => None,
        },
        None => None,
    }
}

pub open spec fn read_welcome(b: Seq<u8>) -> Option<(MessageView, Seq<u8>)> {
    match read_u64(b) {
        Some((id, b1)) => match read_u64(b1) {
            Some((server_time_ms, b2)) => Some(
                (MessageView::Welcome { client_id: ClientId(id), server_time_ms }, b2),
            ),
            None => None,
        },
        None => None,
    }
}

pub open spec fn read_apply(b: Seq<u8>) -> Option<(MessageView, Seq<u8>)> {
    match read_form(b) {
        Some((owner, b1)) => match read_item(b1) {
            Some((delta, b2)) => Some((MessageView::InventoryApply { owner, delta }, b2)),
            None => None,
        },
        None => None,
    }
}

/// The content of the variant with id `t`.
pub open spec fn read_body(t: u32, b: Seq<u8>) -> Option<(MessageView, Seq<u8>)> {
    if t == 0 {
        match read_hello(b) {
            Some((h, rest)) => Some((MessageView::Hello(h), rest)),
            None => None,
        }
    } else if t == 1 {
        read_welcome(b)
    } else if t == 2 {
        match read_u16(b) {
            Some((reason, rest)) => Some((MessageView::Refuse { reason }, rest)),
            None => None,
        }
    } else if t == 3 {
        match read_movement(b) {
            Some((m, rest)) => Some((MessageView::Movement(m), rest)),
            None => None,
        }
    } else if t == 4 {
        match read_hit(b) {
            Some((h, rest)) => Some((MessageView::Hit(h), rest)),
            None => None,
        }
    } else if t == 5 {
        match read_hosted(b) {
            Some((s, rest)) => Some((MessageView::HostedActor(s), rest)),
            None => None,
        }
    } else if t == 6 {
        read_apply(b)
    } else if t == 7 {
        match read_form(b) {
            Some((cell, rest)) => Some((MessageView::HostGrant { cell }, rest)),
            None => None,
        }
    } else if t == 8 {
        match read_form(b) {
            Some((cell, rest)) => Some((MessageView::HostRelease { cell }, rest)),
            None => None,
        }
    } else {
        None
    }
}

/// One message off the front of `b`, in any of its forms, and what follows.
pub open spec fn parse(b: Seq<u8>) -> Option<(MessageView, Seq<u8>)> {
    match read_u32(b) {
        Some((t, rest)) => read_body(t, rest),
        None => None,
    }
}

// ---------------------------------------------------------------------------
// Reading undoes writing
// ---------------------------------------------------------------------------

pub proof fn lemma_float(v: F32, rest: Seq<u8>)
    ensures
        read_float(le_bytes(v.bits) + rest) == Some((v, rest)),
{
    lemma_le_bytes(v.bits);
    let b = le_bytes(v.bits) + rest;
    assert(b.take(4) =~= le_bytes(v.bits));
    assert(b.skip(4) =~= rest);
}

pub proof fn lemma_transform(t: Transform, rest: Seq<u8>)
    ensures
        read_transform(transform_bytes(t) + rest) == Some((t, rest)),
        transform_bytes(t).len() == 20,
{
    let r4 = le_bytes(t.pitch.bits) + rest;
    let r3 = le_bytes(t.yaw.bits) + r4;
    let r2 = le_bytes(t.z.bits) + r3;
    let r1 = le_bytes(t.y.bits) + r2;
    lemma_float(t.pitch, rest);
    lemma_float(t.yaw, r4);
    lemma_float(t.z, r3);
    lemma_float(t.y, r2);
    lemma_float(t.x, r1);
    assert(transform_bytes(t) + rest =~= le_bytes(t.x.bits) + r1);
}

pub proof fn lemma_hashes(hashes: Seq<u64>, rest: Seq<u8>)
    ensures
        read_hashes(hash_bytes(hashes) + rest, hashes.len()) == Some((hashes, rest)),
        hash_bytes(hashes).len() <= U64_MAX_LEN * hashes.len(),
    decreases hashes.len(),
{
    if hashes.len() == 0 {
        assert(hash_bytes(hashes) + rest =~= rest);
        assert(hashes =~= seq![]);
    } else {
        let init = hashes.drop_last();
        let last = varint(hashes.last() as nat);
        lemma_u64(hashes.last(), rest);
        lemma_hashes(init, last + rest);
        assert(hash_bytes(hashes) + rest =~= hash_bytes(init) + (last + rest));
        assert(init.push(hashes.last()) =~= hashes);
    }
}

pub proof fn lemma_item(d: ItemDelta, rest: Seq<u8>)
    ensures
        read_item(item_bytes(d) + rest) == Some((d, rest)),
        item_bytes(d).len() <= 10,
{
    let count = varint(zigzag(d.count));
    lemma_i32(d.count, rest);
    lemma_u32(d.item.0, count + rest);
    assert(item_bytes(d) + rest =~= varint(d.item.0 as nat) + (count + rest));
}

pub proof fn lemma_deltas(deltas: Seq<ItemDelta>, rest: Seq<u8>)
    ensures
        read_deltas(delta_bytes(deltas) + rest, deltas.len()) == Some((deltas, rest)),
        delta_bytes(deltas).len() <= 10 * deltas.len(),
    decreases deltas.len(),
{
    if deltas.len() == 0 {
        assert(delta_bytes(deltas) + rest =~= rest);
        assert(deltas =~= seq![]);
    } else {
        let init = deltas.drop_last();
        let last = item_bytes(deltas.last());
        lemma_item(deltas.last(), rest);
        lemma_deltas(init, last + rest);
        assert(delta_bytes(deltas) + rest =~= delta_bytes(init) + (last + rest));
        assert(init.push(deltas.last()) =~= deltas);
    }
}

pub proof fn lemma_short_varint(n: nat)
    requires
        n < 0x4000,
    ensures
        varint(n).len() <= 2,
        n < 128 ==> varint(n).len() == 1,
{
    reveal_with_fuel(varint, 2);
}

pub proof fn lemma_hello(h: HelloView, rest: Seq<u8>)
    requires
        MessageView::Hello(h).valid(),
    ensures
        read_hello(hello_bytes(h) + rest) == Some((h, rest)),
        hello_bytes(h).len() <= Message::MAX_ENCODED_LEN - 1,
{
    let n = h.mod_hashes.len();
    let r3 = text(h.name) + rest;
    let r2 = varint(n) + (hash_bytes(h.mod_hashes) + r3);
    let r1 = varint(h.client_build as nat) + r2;
    lemma_text(h.name, rest);
    lemma_hashes(h.mod_hashes, r3);
    lemma_len(n, hash_bytes(h.mod_hashes) + r3);
    lemma_u32(h.client_build, r2);
    lemma_u16(h.schema_version, r1);
    lemma_short_varint(n);
    lemma_short_varint(encode_utf8(h.name).len());
    lemma_regroup(
        varint(h.schema_version as nat),
        varint(h.client_build as nat),
        varint(n),
        hash_bytes(h.mod_hashes),
        text(h.name),
        rest,
    );
}

pub proof fn lemma_movement(m: MovementSample, rest: Seq<u8>)
    ensures
        read_movement(movement_bytes(m) + rest) == Some((m, rest)),
        movement_bytes(m).len() <= 32,
{
    let r4 = flag(m.sneak) + rest;
    let r3 = flag(m.run) + r4;
    let r2 = transform_bytes(m.transform) + r3;
    let r1 = varint(m.actor.0 as nat) + r2;
    lemma_bool(m.sneak, rest);
    lemma_bool(m.run, r4);
    lemma_transform(m.transform, r3);
    lemma_u32(m.actor.0, r2);
    lemma_u32(m.seq, r1);
    lemma_regroup(
        varint(m.seq as nat),
        varint(m.actor.0 as nat),
        transform_bytes(m.transform),
        flag(m.run),
        flag(m.sneak),
        rest,
    );
}

proof fn lemma_append(a: Seq<u8>, b: Seq<u8>, rest: Seq<u8>)
    ensures
        a + b + rest == a + (b + rest),
{
    assert(a + b + rest =~= a + (b + rest));
}

proof fn lemma_regroup(a: Seq<u8>, b: Seq<u8>, c: Seq<u8>, d: Seq<u8>, e: Seq<u8>, rest: Seq<u8>)
    ensures
        a + b + c + d + e + rest == a + (b + (c + (d + (e + rest)))),
        (a + b + c + d + e).len() == a.len() + b.len() + c.len() + d.len() + e.len(),
{
    let ab = a + b;
    let abc = ab + c;
    assert(abc + d + e + rest =~= abc + (d + (e + rest)));
    assert(ab + c + (d + (e + rest)) =~= ab + (c + (d + (e + rest))));
    assert(a + b + (c + (d + (e + rest))) =~= a + (b + (c + (d + (e + rest)))));
}

pub proof fn lemma_hit(h: HitIntent, rest: Seq<u8>)
    ensures
        read_hit(hit_bytes(h) + rest) == Some((h, rest)),
        hit_bytes(h).len() <= 26,
{
    let r5 = varint(h.client_time_ms as nat) + rest;
    let r4 = flag(h.power_attack) + r5;
    let r3 = varint(h.weapon.0 as nat) + r4;
    let r2 = varint(h.target.0 as nat) + r3;
    let r1 = varint(h.attacker.0 as nat) + r2;
    lemma_u32(h.client_time_ms, rest);
    lemma_bool(h.power_attack, r5);
    lemma_u32(h.weapon.0, r4);
    lemma_u32(h.target.0, r3);
    lemma_u32(h.attacker.0, r2);
    lemma_u32(h.seq, r1);
    lemma_regroup(
        varint(h.seq as nat),
        varint(h.attacker.0 as nat),
        varint(h.target.0 as nat),
        varint(h.weapon.0 as nat),
        flag(h.power_attack),
        r5,
    );
    let front = varint(h.seq as nat) + varint(h.attacker.0 as nat) + varint(h.target.0 as nat)
        + varint(h.weapon.0 as nat) + flag(h.power_attack);
    lemma_append(front, varint(h.client_time_ms as nat), rest);
}

pub proof fn lemma_hosted(s: HostedActorView, rest: Seq<u8>)
    requires
        MessageView::HostedActor(s).valid(),
    ensures
        read_hosted(hosted_bytes(s) + rest) == Some((s, rest)),
        hosted_bytes(s).len() <= 350,
{
    let n = s.inventory_delta.len();
    let r3 = varint(n) + (delta_bytes(s.inventory_delta) + rest);
    let r2 = le_bytes(s.health.bits) + r3;
    let r1 = transform_bytes(s.transform) + r2;
    lemma_deltas(s.inventory_delta, rest);
    lemma_len(n, delta_bytes(s.inventory_delta) + rest);
    lemma_float(s.health, r3);
    lemma_le_bytes(s.health.bits);
    lemma_transform(s.transform, r2);
    lemma_u32(s.actor.0, r1);
    lemma_short_varint(n);
    lemma_regroup(
        varint(s.actor.0 as nat),
        transform_bytes(s.transform),
        le_bytes(s.health.bits),
        varint(n),
        delta_bytes(s.inventory_delta),
        rest,
    );
}

proof fn lemma_welcome(client_id: ClientId, server_time_ms: u64, rest: Seq<u8>)
    ensures
        ({
            let m = MessageView::Welcome { client_id, server_time_ms };
            &&& read_welcome(body(m) + rest) == Some((m, rest))
            &&& body(m).len() <= 2 * U64_MAX_LEN
        }),
{
    let time = varint(server_time_ms as nat);
    lemma_u64(server_time_ms, rest);
    lemma_u64(client_id.0, time + rest);
    lemma_append(varint(client_id.0 as nat), time, rest);
}

proof fn lemma_apply(owner: FormId, delta: ItemDelta, rest: Seq<u8>)
    ensures
        ({
            let m = MessageView::InventoryApply { owner, delta };
            &&& read_apply(body(m) + rest) == Some((m, rest))
            &&& body(m).len() <= 3 * U32_MAX_LEN
        }),
{
    lemma_item(delta, rest);
    lemma_u32(owner.0, item_bytes(delta) + rest);
    lemma_append(varint(owner.0 as nat), item_bytes(delta), rest);
}

pub proof fn lemma_body(m: MessageView, rest: Seq<u8>)
    requires
        m.valid(),
    ensures
        read_body(tag(m), body(m) + rest) == Some((m, rest)),
        body(m).len() <= Message::MAX_ENCODED_LEN - 1,
{
    match m {
        MessageView::Hello(h) => lemma_hello(h, rest),
        MessageView::Welcome { client_id, server_time_ms } => lemma_welcome(
            client_id,
            server_time_ms,
            rest,
        ),
        MessageView::Refuse { reason } => lemma_u16(reason, rest),
        MessageView::Movement(s) => lemma_movement(s, rest),
        MessageView::Hit(h) => lemma_hit(h, rest),
        MessageView::HostedActor(s) => lemma_hosted(s, rest),
        MessageView::InventoryApply { owner, delta } => lemma_apply(owner, delta, rest),
        MessageView::HostGrant { cell } => lemma_u32(cell.0, rest),
        MessageView::HostRelease { cell } => lemma_u32(cell.0, rest),
    }
}

/// Reading the encoding of a message gives the message back, whatever follows
/// it, and no encoding is longer than the cap.
pub proof fn lemma_parse_encoding(m: MessageView, rest: Seq<u8>)
    requires
        m.valid(),
    ensures
        parse(encoding(m) + rest) == Some((m, rest)),
        1 <= encoding(m).len() <= Message::MAX_ENCODED_LEN,
{
    lemma_u32(tag(m), body(m) + rest);
    lemma_short_varint(tag(m) as nat);
    lemma_append(varint(tag(m) as nat), body(m), rest);
    lemma_body(m, rest);
}

pub proof fn lemma_read_hashes_len(b: Seq<u8>, n: nat)
    ensures
        read_hashes(b, n) matches Some((hashes, _)) ==> hashes.len() == n,
    decreases n,
{
    if n > 0 {
        lemma_read_hashes_len(b, (n - 1) as nat);
    }
}

/// A list that breaks off after `n` elements breaks off for every longer length.
pub proof fn lemma_read_hashes_none(b: Seq<u8>, n: nat, m: nat)
    requires
        read_hashes(b, n) is None,
        n <= m,
    ensures
        read_hashes(b, m) is None,
    decreases m,
{
    if n < m {
        lemma_read_hashes_none(b, n, (m - 1) as nat);
    }
}

pub proof fn lemma_read_deltas_len(b: Seq<u8>, n: nat)
    ensures
        read_deltas(b, n) matches Some((deltas, _)) ==> deltas.len() == n,
    decreases n,
{
    if n > 0 {
        lemma_read_deltas_len(b, (n - 1) as nat);
    }
}

/// A list that breaks off after `n` elements breaks off for every longer length.
pub proof fn lemma_read_deltas_none(b: Seq<u8>, n: nat, m: nat)
    requires
        read_deltas(b, n) is None,
        n <= m,
    ensures
        read_deltas(b, m) is None,
    decreases m,
{
    if n < m {
        lemma_read_deltas_none(b, n, (m - 1) as nat);
    }
}

proof fn lemma_lists_take_room(hashes: Seq<u64>, deltas: Seq<ItemDelta>)
    ensures
        hash_bytes(hashes).len() >= hashes.len(),
        delta_bytes(deltas).len() >= deltas.len(),
    decreases hashes.len() + deltas.len(),
{
    if hashes.len() > 0 {
        lemma_u64(hashes.last(), seq![]);
        lemma_lists_take_room(hashes.drop_last(), deltas);
    } else if deltas.len() > 0 {
        lemma_u32(deltas.last().item.0, seq![]);
        lemma_lists_take_room(hashes, deltas.drop_last());
    }
}

/// What is over a capacity does not read, as long as it is no longer than the
/// longest message.
pub proof fn lemma_over_capacity(m: MessageView)
    requires
        !m.valid(),
        encoding(m).len() <= Message::MAX_ENCODED_LEN,
    ensures
        parse(encoding(m)) is None,
{
    lemma_u32(tag(m), body(m));
    match m {
        MessageView::Hello(h) => {
            let n = h.mod_hashes.len();
            lemma_lists_take_room(h.mod_hashes, seq![]);
            let r3 = text(h.name);
            let r2 = varint(n) + (hash_bytes(h.mod_hashes) + r3);
            let r1 = varint(h.client_build as nat) + r2;
            lemma_hashes(h.mod_hashes, r3);
            lemma_len(n, hash_bytes(h.mod_hashes) + r3);
            lemma_u32(h.client_build, r2);
            lemma_u16(h.schema_version, r1);
            lemma_regroup(
                varint(h.schema_version as nat),
                varint(h.client_build as nat),
                varint(n),
                hash_bytes(h.mod_hashes),
                text(h.name),
                seq![],
            );
            assert(hello_bytes(h) + seq![] =~= hello_bytes(h));
            assert(text(h.name) + seq![] =~= text(h.name));
            lemma_text(h.name, seq![]);
        },
        MessageView::HostedActor(s) => {
            let n = s.inventory_delta.len();
            lemma_lists_take_room(seq![], s.inventory_delta);
            let r3 = varint(n) + delta_bytes(s.inventory_delta);
            let r2 = le_bytes(s.health.bits) + r3;
            let r1 = transform_bytes(s.transform) + r2;
            lemma_len(n, delta_bytes(s.inventory_delta));
            lemma_float(s.health, r3);
            lemma_transform(s.transform, r2);
            lemma_u32(s.actor.0, r1);
            lemma_regroup(
                varint(s.actor.0 as nat),
                transform_bytes(s.transform),
                le_bytes(s.health.bits),
                varint(n),
                delta_bytes(s.inventory_delta),
                seq![],
            );
            assert(hosted_bytes(s) + seq![] =~= hosted_bytes(s));
            assert(delta_bytes(s.inventory_delta) + seq![] =~= delta_bytes(s.inventory_delta));
        },
        _ => {},
    }
}

/// Whatever reads as a message is within the capacities.
pub proof fn lemma_parse_valid(b: Seq<u8>)
    ensures
        parse(b) matches Some((m, _)) ==> m.valid(),
{
    if let Some((t, b0)) = read_u32(b) {
        if let Some((_, b1)) = read_u16(b0) {
            if let Some((_, b2)) = read_u32(b1) {
                if let Some((n, b3)) = read_len(b2) {
                    lemma_read_hashes_len(b3, n);
                }
            }
        }
        if let Some((_, b1)) = read_form(b0) {
            if let Some((_, b2)) = read_transform(b1) {
                if let Some((_, b3)) = read_float(b2) {
                    if let Some((n, b4)) = read_len(b3) {
                        lemma_read_deltas_len(b4, n);
                    }
                }
            }
        }
    }
}

} // verus!
