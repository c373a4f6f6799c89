//! The byte format, field by field: what stands where in the encoding of each
//! message, and what every kind of bad input comes to.
use super::format::{
    body, delta_bytes, encoding, hash_bytes, item_bytes, lemma_body, lemma_short_varint, parse,
    read_body, tag, transform_bytes,
};
use super::{decoded, WireError};
use crate::primitive::{flag, lemma_u32, read_u32, read_varint, text, varint, zigzag};
use crate::scalar::{le_bytes, lemma_le_bytes};
use crate::schema::{
    ClientId, FormId, HelloView, HitIntent, HostedActorView, ItemDelta, MessageView, MovementSample,
    Transform,
};
use vstd::prelude::*;
use vstd::utf8::encode_utf8;

verus! {

/// The number that four bytes at `at` stand for, least significant first.
pub open spec fn number_at(b: Seq<u8>, at: int) -> int {
    b[at] + 0x100 * b[at + 1] + 0x1_0000 * b[at + 2] + 0x100_0000 * b[at + 3]
}

/// `part` stands in `b` at `at`.
#[verifier::opaque]
pub open spec fn stands_at(b: Seq<u8>, at: int, part: Seq<u8>) -> bool {
    0 <= at && at + part.len() <= b.len() && b.subrange(at, at + part.len()) == part
}

proof fn lemma_stands(pre: Seq<u8>, part: Seq<u8>, post: Seq<u8>)
    ensures
        stands_at(pre + part + post, pre.len() as int, part),
{
    reveal(stands_at);
    let b = pre + part + post;
    assert(b.subrange(pre.len() as int, pre.len() as int + part.len()) =~= part);
}

/// A part of a part.
proof fn lemma_stands_in(b: Seq<u8>, at: int, part: Seq<u8>, off: int, inner: Seq<u8>)
    requires
        stands_at(b, at, part),
        stands_at(part, off, inner),
    ensures
        stands_at(b, at + off, inner),
{
    reveal(stands_at);
    assert(b.subrange(at, at + part.len()).subrange(off, off + inner.len()) =~= b.subrange(
        at + off,
        at + off + inner.len(),
    ));
}

proof fn lemma_number(b: Seq<u8>, at: int, bits: u32)
    requires
        stands_at(b, at, le_bytes(bits)),
    ensures
        number_at(b, at) == bits,
        at + 4 <= b.len(),
{
    reveal(stands_at);
    lemma_le_bytes(bits);
    let four = b.subrange(at, at + 4);
    assert(four[0] == b[at] && four[1] == b[at + 1] && four[2] == b[at + 2] && four[3] == b[at
        + 3]);
}

proof fn lemma_flag(b: Seq<u8>, at: int, v: bool)
    requires
        stands_at(b, at, flag(v)),
    ensures
        at < b.len(),
        b[at] == if v {
            1u8
        } else {
            0u8
        },
{
    reveal(stands_at);
    assert(b.subrange(at, at + 1)[0] == b[at]);
}

/// Where five parts stand in their concatenation.
proof fn lemma_five(a: Seq<u8>, b: Seq<u8>, c: Seq<u8>, d: Seq<u8>, e: Seq<u8>)
    ensures
        ({
            let whole = a + b + c + d + e;
            let n1 = a.len() as int;
            let n2 = n1 + b.len();
            let n3 = n2 + c.len();
            let n4 = n3 + d.len();
            &&& stands_at(whole, 0, a)
            &&& stands_at(whole, n1, b)
            &&& stands_at(whole, n2, c)
            &&& stands_at(whole, n3, d)
            &&& stands_at(whole, n4, e)
            &&& whole.len() == n4 + e.len()
        }),
{
    let whole = a + b + c + d + e;
    assert(whole =~= Seq::<u8>::empty() + a + (b + c + d + e));
    lemma_stands(seq![], a, b + c + d + e);
    assert(whole =~= a + b + (c + d + e));
    lemma_stands(a, b, c + d + e);
    assert(whole =~= (a + b) + c + (d + e));
    lemma_stands(a + b, c, d + e);
    assert(whole =~= (a + b + c) + d + e);
    lemma_stands(a + b + c, d, e);
    assert(whole =~= (a + b + c + d) + e + Seq::<u8>::empty());
    lemma_stands(a + b + c + d, e, seq![]);
}

/// What follows the id stands behind one byte, the id.
proof fn lemma_behind_the_id(m: MessageView)
    ensures
        encoding(m).len() == 1 + body(m).len(),
        encoding(m)[0] == tag(m),
        stands_at(encoding(m), 1, body(m)),
{
    lemma_short_varint(tag(m) as nat);
    let id = varint(tag(m) as nat);
    assert(encoding(m) =~= id + body(m) + seq![]);
    lemma_stands(id, body(m), seq![]);
}

/// The floats of a transform in a run of bytes: x, y, z, yaw, pitch, four bytes
/// each, in that order.
pub open spec fn transform_at(b: Seq<u8>, at: int, t: Transform) -> bool {
    &&& at + 20 <= b.len()
    &&& number_at(b, at) == t.x.bits
    &&& number_at(b, at + 4) == t.y.bits
    &&& number_at(b, at + 8) == t.z.bits
    &&& number_at(b, at + 12) == t.yaw.bits
    &&& number_at(b, at + 16) == t.pitch.bits
}

proof fn lemma_transform_len(t: Transform)
    ensures
        transform_bytes(t).len() == 20,
{
}

proof fn lemma_transform_at(b: Seq<u8>, at: int, t: Transform)
    requires
        stands_at(b, at, transform_bytes(t)),
    ensures
        transform_at(b, at, t),
{
    let part = transform_bytes(t);
    let (x, y, z, yaw, pitch) = (
        le_bytes(t.x.bits),
        le_bytes(t.y.bits),
        le_bytes(t.z.bits),
        le_bytes(t.yaw.bits),
        le_bytes(t.pitch.bits),
    );
    lemma_five(x, y, z, yaw, pitch);
    lemma_stands_in(b, at, part, 0, x);
    lemma_stands_in(b, at, part, 4, y);
    lemma_stands_in(b, at, part, 8, z);
    lemma_stands_in(b, at, part, 12, yaw);
    lemma_stands_in(b, at, part, 16, pitch);
    lemma_number(b, at, t.x.bits);
    lemma_number(b, at + 4, t.y.bits);
    lemma_number(b, at + 8, t.z.bits);
    lemma_number(b, at + 12, t.yaw.bits);
    lemma_number(b, at + 16, t.pitch.bits);
}

/// A movement on the wire: the id 3, the variable-length `seq` and `actor`, the
/// five floats in the order of the fields, one byte each for running and
/// sneaking, and nothing more.
pub proof fn law_movement_bytes(m: MovementSample)
    ensures
        ({
            let b = encoding(MessageView::Movement(m));
            let at_actor = 1 + varint(m.seq as nat).len() as int;
            let at = at_actor + varint(m.actor.0 as nat).len();
            &&& b[0] == 3
            &&& stands_at(b, 1, varint(m.seq as nat))
            &&& stands_at(b, at_actor, varint(m.actor.0 as nat))
            &&& transform_at(b, at, m.transform)
            &&& b[at + 20] == if m.run {
                1u8
            } else {
                0u8
            }
            &&& b[at + 21] == if m.sneak {
                1u8
            } else {
                0u8
            }
            &&& b.len() == at + 22
        }),
{
    let whole = MessageView::Movement(m);
    let b = encoding(whole);
    let part = body(whole);
    let (seq, actor) = (varint(m.seq as nat), varint(m.actor.0 as nat));
    let at = seq.len() as int + actor.len();
    lemma_behind_the_id(whole);
    lemma_transform_len(m.transform);
    lemma_five(seq, actor, transform_bytes(m.transform), flag(m.run), flag(m.sneak));
    lemma_stands_in(b, 1, part, 0, seq);
    lemma_stands_in(b, 1, part, seq.len() as int, actor);
    lemma_stands_in(b, 1, part, at, transform_bytes(m.transform));
    lemma_stands_in(b, 1, part, at + 20, flag(m.run));
    lemma_stands_in(b, 1, part, at + 21, flag(m.sneak));
    lemma_transform_at(b, 1 + at, m.transform);
    lemma_flag(b, 1 + at + 20, m.run);
    lemma_flag(b, 1 + at + 21, m.sneak);
}

/// A hit on the wire: the id 4, the variable-length `seq`, attacker, target and
/// weapon, one byte for a power attack, the variable-length time, and nothing
/// more.
pub proof fn law_hit_bytes(h: HitIntent)
    ensures
        ({
            let b = encoding(MessageView::Hit(h));
            let at1 = 1 + varint(h.seq as nat).len() as int;
            let at2 = at1 + varint(h.attacker.0 as nat).len();
            let at3 = at2 + varint(h.target.0 as nat).len();
            let at4 = at3 + varint(h.weapon.0 as nat).len();
            &&& b[0] == 4
            &&& stands_at(b, 1, varint(h.seq as nat))
            &&& stands_at(b, at1, varint(h.attacker.0 as nat))
            &&& stands_at(b, at2, varint(h.target.0 as nat))
            &&& stands_at(b, at3, varint(h.weapon.0 as nat))
            &&& b[at4] == if h.power_attack {
                1u8
            } else {
                0u8
            }
            &&& stands_at(b, at4 + 1, varint(h.client_time_ms as nat))
            &&& b.len() == at4 + 1 + varint(h.client_time_ms as nat).len()
        }),
{
    let whole = MessageView::Hit(h);
    let b = encoding(whole);
    let part = body(whole);
    let seq = varint(h.seq as nat);
    let attacker = varint(h.attacker.0 as nat);
    let target = varint(h.target.0 as nat);
    let weapon = varint(h.weapon.0 as nat);
    let power = flag(h.power_attack);
    let time = varint(h.client_time_ms as nat);
    let front = seq + attacker + target + weapon + power;
    let n1 = seq.len() as int;
    let n2 = n1 + attacker.len();
    let n3 = n2 + target.len();
    let n4 = n3 + weapon.len();
    lemma_behind_the_id(whole);
    lemma_five(seq, attacker, target, weapon, power);
    assert(part =~= Seq::<u8>::empty() + front + time);
    lemma_stands(seq![], front, time);
    assert(part =~= front + time + Seq::<u8>::empty());
    lemma_stands(front, time, seq![]);
    lemma_stands_in(b, 1, part, 0, front);
    lemma_stands_in(b, 1, front, 0, seq);
    lemma_stands_in(b, 1, front, n1, attacker);
    lemma_stands_in(b, 1, front, n2, target);
    lemma_stands_in(b, 1, front, n3, weapon);
    lemma_stands_in(b, 1, front, n4, power);
    lemma_stands_in(b, 1, part, n4 + 1, time);
    lemma_flag(b, 1 + n4, h.power_attack);
}

/// The bytes that the first `k` hashes of a list take, each in its shortest
/// variable-length form.
pub open spec fn hashes_len(hashes: Seq<u64>, k: nat) -> nat
    decreases k,
{
    if k == 0 {
        0
    } else {
        hashes_len(hashes, (k - 1) as nat) + varint(hashes[k - 1] as nat).len()
    }
}

proof fn lemma_hash_at(hashes: Seq<u64>, k: nat)
    requires
        k <= hashes.len(),
    ensures
        k < hashes.len() ==> stands_at(
            hash_bytes(hashes),
            hashes_len(hashes, k) as int,
            varint(hashes[k as int] as nat),
        ),
        hash_bytes(hashes).len() == hashes_len(hashes, hashes.len()),
    decreases hashes.len(),
{
    if hashes.len() > 0 {
        let init = hashes.drop_last();
        let all = hash_bytes(hashes);
        let last = varint(hashes.last() as nat);
        let at = if k < init.len() {
            k
        } else {
            init.len()
        };
        lemma_hash_at(init, at);
        lemma_hashes_len(init, hashes, init.len());
        lemma_hashes_len(init, hashes, at);
        assert(all =~= Seq::<u8>::empty() + hash_bytes(init) + last);
        lemma_stands(seq![], hash_bytes(init), last);
        assert(all =~= hash_bytes(init) + last + Seq::<u8>::empty());
        lemma_stands(hash_bytes(init), last, seq![]);
        if k < init.len() {
            assert(init[k as int] == hashes[k as int]);
            lemma_stands_in(
                all,
                0,
                hash_bytes(init),
                hashes_len(init, k) as int,
                varint(hashes[k as int] as nat),
            );
        }
    }
}

proof fn lemma_hashes_len(a: Seq<u64>, b: Seq<u64>, k: nat)
    requires
        k <= a.len() <= b.len(),
        forall|i: int| 0 <= i < a.len() ==> a[i] == b[i],
    ensures
        hashes_len(a, k) == hashes_len(b, k),
    decreases k,
{
    if k > 0 {
        lemma_hashes_len(a, b, (k - 1) as nat);
    }
}

/// A greeting on the wire: the id 0, the variable-length version and build, the
/// number of hashes and each hash in order, the length of the name and its
/// UTF-8 bytes, and nothing more.
pub proof fn law_hello_bytes(h: HelloView, k: nat)
    ensures
        ({
            let b = encoding(MessageView::Hello(h));
            let n = h.mod_hashes.len();
            let name = encode_utf8(h.name);
            let at1 = 1 + varint(h.schema_version as nat).len() as int;
            let at2 = at1 + varint(h.client_build as nat).len();
            let at3 = at2 + varint(n).len();
            let at4 = at3 + hashes_len(h.mod_hashes, n);
            let at5 = at4 + varint(name.len()).len();
            &&& b[0] == 0
            &&& stands_at(b, 1, varint(h.schema_version as nat))
            &&& stands_at(b, at1, varint(h.client_build as nat))
            &&& stands_at(b, at2, varint(n))
            &&& k < n ==> stands_at(
                b,
                at3 + hashes_len(h.mod_hashes, k),
                varint(h.mod_hashes[k as int] as nat),
            )
            &&& stands_at(b, at4, varint(name.len()))
            &&& stands_at(b, at5, name)
            &&& b.len() == at5 + name.len()
        }),
{
    let whole = MessageView::Hello(h);
    let b = encoding(whole);
    let part = body(whole);
    let n = h.mod_hashes.len();
    let version = varint(h.schema_version as nat);
    let build = varint(h.client_build as nat);
    let hashes = hash_bytes(h.mod_hashes);
    let name = encode_utf8(h.name);
    let len = varint(name.len());
    let n1 = version.len() as int;
    let n2 = n1 + build.len();
    let n3 = n2 + varint(n).len();
    let n4 = n3 + hashes.len();
    lemma_behind_the_id(whole);
    lemma_five(version, build, varint(n), hashes, text(h.name));
    lemma_hash_at(
        h.mod_hashes,
        if k < n {
            k
        } else {
            n
        },
    );
    assert(text(h.name) =~= Seq::<u8>::empty() + len + name);
    lemma_stands(seq![], len, name);
    assert(text(h.name) =~= len + name + Seq::<u8>::empty());
    lemma_stands(len, name, seq![]);
    lemma_stands_in(b, 1, part, 0, version);
    lemma_stands_in(b, 1, part, n1, build);
    lemma_stands_in(b, 1, part, n2, varint(n));
    lemma_stands_in(b, 1, part, n3, hashes);
    lemma_stands_in(b, 1, part, n4, text(h.name));
    lemma_stands_in(b, 1 + n4, text(h.name), 0, len);
    lemma_stands_in(b, 1 + n4, text(h.name), len.len() as int, name);
    if k < n {
        lemma_stands_in(
            b,
            1 + n3,
            hashes,
            hashes_len(h.mod_hashes, k) as int,
            varint(h.mod_hashes[k as int] as nat),
        );
    }
}

/// The bytes that one inventory change takes.
pub open spec fn item_len(d: ItemDelta) -> nat {
    varint(d.item.0 as nat).len() + varint(zigzag(d.count)).len()
}

/// The bytes that the first `k` inventory changes of a list take.
pub open spec fn deltas_len(deltas: Seq<ItemDelta>, k: nat) -> nat
    decreases k,
{
    if k == 0 {
        0
    } else {
        deltas_len(deltas, (k - 1) as nat) + item_len(deltas[k - 1])
    }
}

/// An inventory change in a run of bytes: the item, then the count, its sign
/// folded in.
pub open spec fn item_at(b: Seq<u8>, at: int, d: ItemDelta) -> bool {
    &&& stands_at(b, at, varint(d.item.0 as nat))
    &&& stands_at(b, at + varint(d.item.0 as nat).len(), varint(zigzag(d.count)))
}

proof fn lemma_item_at(b: Seq<u8>, at: int, d: ItemDelta)
    requires
        stands_at(b, at, item_bytes(d)),
    ensures
        item_at(b, at, d),
        item_bytes(d).len() == item_len(d),
{
    let part = item_bytes(d);
    let item = varint(d.item.0 as nat);
    let count = varint(zigzag(d.count));
    assert(part =~= Seq::<u8>::empty() + item + count);
    lemma_stands(seq![], item, count);
    assert(part =~= item + count + Seq::<u8>::empty());
    lemma_stands(item, count, seq![]);
    lemma_stands_in(b, at, part, 0, item);
    lemma_stands_in(b, at, part, item.len() as int, count);
}

proof fn lemma_deltas_len(a: Seq<ItemDelta>, b: Seq<ItemDelta>, k: nat)
    requires
        k <= a.len() <= b.len(),
        forall|i: int| 0 <= i < a.len() ==> a[i] == b[i],
    ensures
        deltas_len(a, k) == deltas_len(b, k),
    decreases k,
{
    if k > 0 {
        lemma_deltas_len(a, b, (k - 1) as nat);
    }
}

proof fn lemma_delta_at(deltas: Seq<ItemDelta>, k: nat)
    requires
        k <= deltas.len(),
    ensures
        k < deltas.len() ==> stands_at(
            delta_bytes(deltas),
            deltas_len(deltas, k) as int,
            item_bytes(deltas[k as int]),
        ),
        delta_bytes(deltas).len() == deltas_len(deltas, deltas.len()),
    decreases deltas.len(),
{
    if deltas.len() > 0 {
        let init = deltas.drop_last();
        let all = delta_bytes(deltas);
        let last = item_bytes(deltas.last());
        let at = if k < init.len() {
            k
        } else {
            init.len()
        };
        lemma_delta_at(init, at);
        lemma_deltas_len(init, deltas, init.len());
        lemma_deltas_len(init, deltas, at);
        assert(all =~= Seq::<u8>::empty() + delta_bytes(init) + last);
        lemma_stands(seq![], delta_bytes(init), last);
        assert(all =~= delta_bytes(init) + last + Seq::<u8>::empty());
        lemma_stands(delta_bytes(init), last, seq![]);
        if k < init.len() {
            assert(init[k as int] == deltas[k as int]);
            lemma_stands_in(
                all,
                0,
                delta_bytes(init),
                deltas_len(init, k) as int,
                item_bytes(deltas[k as int]),
            );
        }
    }
}

/// A hosted actor's report on the wire: the id 5, the variable-length actor, the
/// five floats of its transform in the order of the fields, its health, the
/// number of inventory changes and each change in order, and nothing more.
pub proof fn law_hosted_bytes(s: HostedActorView, k: nat)
    ensures
        ({
            let b = encoding(MessageView::HostedActor(s));
            let n = s.inventory_delta.len();
            let at = 1 + varint(s.actor.0 as nat).len() as int;
            let items = at + 24 + varint(n).len();
            &&& b[0] == 5
            &&& stands_at(b, 1, varint(s.actor.0 as nat))
            &&& transform_at(b, at, s.transform)
            &&& number_at(b, at + 20) == s.health.bits
            &&& stands_at(b, at + 24, varint(n))
            &&& k < n ==> item_at(
                b,
                items + deltas_len(s.inventory_delta, k),
                s.inventory_delta[k as int],
            )
            &&& b.len() == items + deltas_len(s.inventory_delta, n)
        }),
{
    let whole = MessageView::HostedActor(s);
    let b = encoding(whole);
    let part = body(whole);
    let n = s.inventory_delta.len();
    let actor = varint(s.actor.0 as nat);
    let place = transform_bytes(s.transform);
    let health = le_bytes(s.health.bits);
    let deltas = delta_bytes(s.inventory_delta);
    let a = actor.len() as int;
    lemma_behind_the_id(whole);
    lemma_transform_len(s.transform);
    lemma_le_bytes(s.health.bits);
    lemma_five(actor, place, health, varint(n), deltas);
    lemma_delta_at(
        s.inventory_delta,
        if k < n {
            k
        } else {
            n
        },
    );
    lemma_stands_in(b, 1, part, 0, actor);
    lemma_stands_in(b, 1, part, a, place);
    lemma_stands_in(b, 1, part, a + 20, health);
    lemma_stands_in(b, 1, part, a + 24, varint(n));
    lemma_stands_in(b, 1, part, a + 24 + varint(n).len(), deltas);
    lemma_transform_at(b, 1 + a, s.transform);
    lemma_number(b, 1 + a + 20, s.health.bits);
    if k < n {
        let at = deltas_len(s.inventory_delta, k) as int;
        let start = 1 + a + 24 + varint(n).len();
        lemma_stands_in(b, start, deltas, at, item_bytes(s.inventory_delta[k as int]));
        lemma_item_at(b, start + at, s.inventory_delta[k as int]);
    }
}

/// A welcome on the wire: the id 1, the variable-length client id and time, and
/// nothing more.
pub proof fn law_welcome_bytes(client_id: ClientId, server_time_ms: u64)
    ensures
        encoding(MessageView::Welcome { client_id, server_time_ms }) == seq![1u8] + varint(
            client_id.0 as nat,
        ) + varint(server_time_ms as nat),
{
    let m = MessageView::Welcome { client_id, server_time_ms };
    lemma_behind_the_id(m);
    assert(varint(1) =~= seq![1u8]);
    assert(encoding(m) =~= seq![1u8] + varint(client_id.0 as nat) + varint(server_time_ms as nat));
}

/// A refusal on the wire: the id 2, the variable-length reason, and nothing
/// more.
pub proof fn law_refuse_bytes(reason: u16)
    ensures
        encoding(MessageView::Refuse { reason }) == seq![2u8] + varint(reason as nat),
{
    assert(varint(2) =~= seq![2u8]);
}

/// An applied inventory change on the wire: the id 6, the variable-length owner,
/// then item and count, and nothing more.
pub proof fn law_apply_bytes(owner: FormId, delta: ItemDelta)
    ensures
        encoding(MessageView::InventoryApply { owner, delta }) == seq![6u8] + varint(
            owner.0 as nat,
        ) + varint(delta.item.0 as nat) + varint(zigzag(delta.count)),
{
    let m = MessageView::InventoryApply { owner, delta };
    assert(varint(6) =~= seq![6u8]);
    assert(encoding(m) =~= seq![6u8] + varint(owner.0 as nat) + varint(delta.item.0 as nat)
        + varint(zigzag(delta.count)));
}

/// A cell granted or released on the wire: the id 7 or 8, the variable-length
/// cell, and nothing more.
pub proof fn law_cell_bytes(cell: FormId)
    ensures
        encoding(MessageView::HostGrant { cell }) == seq![7u8] + varint(cell.0 as nat),
        encoding(MessageView::HostRelease { cell }) == seq![8u8] + varint(cell.0 as nat),
{
    assert(varint(7) =~= seq![7u8]);
    assert(varint(8) =~= seq![8u8]);
}

/// The folded form of a count keeps its sign: twice the count, less one for the
/// negative ones turned positive.
pub proof fn law_signs_are_folded(count: i32)
    ensures
        zigzag(count) % 2 == if count < 0 {
            1nat
        } else {
            0
        },
        count >= 0 ==> zigzag(count) == 2 * count,
        count < 0 ==> zigzag(count) == -2 * count - 1,
{
}

/// Everything longer than 2626 bytes is refused for its length, with the length
/// and the cap, whatever is in it; nothing else is.
pub proof fn law_over_long_inputs_are_refused(b: Seq<u8>)
    requires
        b.len() <= usize::MAX,
    ensures
        b.len() > 2626 ==> (decoded(b) matches Err(WireError::TooLong { len, max }) && len
            == b.len() && max == 2626),
        b.len() <= 2626 ==> !(decoded(b) matches Err(WireError::TooLong { .. })),
{
}

/// An id that no message has is malformed, whatever follows it.
pub proof fn law_unknown_ids_are_malformed(id: u8, rest: Seq<u8>)
    requires
        9 <= id < 128,
        rest.len() < 2626,
    ensures
        decoded(seq![id] + rest) == Err::<MessageView, WireError>(WireError::Malformed),
{
    let b = seq![id] + rest;
    assert(varint(id as nat) =~= seq![id]);
    lemma_u32(id as u32, rest);
    assert(parse(b) == read_body(id as u32, rest));
}

/// A message whose id is written longer than it has to be is read: with nothing
/// after it it is refused as not canonical, with anything after it for that.
pub proof fn law_overlong_forms_are_not_canonical(m: MessageView, extra: Seq<u8>)
    requires
        m.valid(),
        encoding(m).len() + extra.len() < 2626,
    ensures
        decoded(seq![(encoding(m)[0] + 128) as u8, 0u8] + encoding(m).skip(1) + extra) == Err::<
            MessageView,
            WireError,
        >(
            if extra.len() > 0 {
                WireError::Trailing(extra.len() as usize)
            } else {
                WireError::NonCanonical
            },
        ),
{
    lemma_behind_the_id(m);
    let rest = encoding(m).skip(1);
    assert(rest =~= body(m)) by {
        reveal(stands_at);
        assert(encoding(m).subrange(1, 1int + body(m).len()) =~= rest);
    }
    let first = (encoding(m)[0] + 128) as u8;
    let b = seq![first, 0u8] + rest + extra;
    reveal_with_fuel(read_varint, 3);
    assert(b.skip(1).skip(1) =~= body(m) + extra);
    assert(b.skip(1)[0] == 0);
    assert(read_varint(b, 5, 15) == Some((tag(m) as nat, body(m) + extra)));
    assert(read_u32(b) == Some((tag(m), body(m) + extra)));
    lemma_body(m, extra);
    assert(parse(b) == Some((m, extra)));
    assert(b[0] != encoding(m)[0]);
}

/// Bytes that read as a message with nothing after it, but are not the bytes
/// that the message is written as, are refused as not canonical and for nothing
/// else.
pub proof fn law_only_other_forms_are_not_canonical(b: Seq<u8>)
    requires
        b.len() <= 2626,
    ensures
        decoded(b) == Err::<MessageView, WireError>(WireError::NonCanonical) ==> exists|
            m: MessageView,
        |
            #![trigger encoding(m)]
            m.valid() && encoding(m) != b && decoded(encoding(m)) == Ok::<MessageView, WireError>(
                m,
            ),
{
    if decoded(b) == Err::<MessageView, WireError>(WireError::NonCanonical) {
        let m = parse(b).unwrap().0;
        super::lemma_parse_valid(b);
        super::law_decode_undoes_encode(m);
        assert(encoding(m) != b);
    }
}

} // verus!
