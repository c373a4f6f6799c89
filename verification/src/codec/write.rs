//! Writing messages into a buffer, at a position. Every function here says
//! that the buffer holds what it wrote and is otherwise unchanged.
use super::format::{
    body, delta_bytes, encoding, hash_bytes, hello_bytes, hit_bytes, hosted_bytes, item_bytes,
    lemma_short_varint, movement_bytes, tag, transform_bytes,
};
use crate::primitive::{
    flag, text, varint, wrote_at, write_bool, write_four, write_i32, write_text,
    write_u16, write_u32, write_u64, zigzag,
};
use crate::scalar::{le_bytes, lemma_le_bytes, split, F32};
use crate::schema::bounded::{deltas_as_slice, hashes_as_slice, name_as_str};
use crate::schema::{
    Hello, HitIntent, HostedActorState, ItemDelta, Message, MovementSample, Transform,
};
use vstd::prelude::*;
use vstd::utf8::encode_utf8;

verus! {

/// Two writes in a row are one.
proof fn lemma_wrote_both(
    a: Seq<u8>,
    b: Seq<u8>,
    c: Seq<u8>,
    at: int,
    first: Seq<u8>,
    second: Seq<u8>,
)
    requires
        0 <= at,
        wrote_at(a, b, at, first),
        wrote_at(b, c, at + first.len(), second),
    ensures
        wrote_at(a, c, at, first + second),
{
    let mid = at + first.len();
    let end = mid + second.len();
    assert(c.take(end) =~= a.take(at) + (first + second));
    assert(c.skip(end) =~= b.skip(mid).skip(second.len() as int));
    assert(a.skip(end) =~= a.skip(mid).skip(second.len() as int));
}

proof fn lemma_wrote_nothing(a: Seq<u8>, at: int)
    requires
        0 <= at <= a.len(),
    ensures
        wrote_at(a, a, at, seq![]),
{
    assert(a.take(at) + Seq::<u8>::empty() =~= a.take(at));
}

fn write_float(v: F32, buf: &mut [u8], at: usize) -> (end: usize)
    requires
        at + 4 <= old(buf)@.len(),
    ensures
        end == at + 4,
        le_bytes(v.bits).len() == 4,
        wrote_at(old(buf)@, final(buf)@, at as int, le_bytes(v.bits)),
{
    proof {
        lemma_le_bytes(v.bits);
    }
    write_four(split(v), buf, at)
}

fn write_transform(t: &Transform, buf: &mut [u8], at: usize) -> (end: usize)
    requires
        at + 20 <= old(buf)@.len(),
    ensures
        end == at + 20,
        transform_bytes(*t).len() == 20,
        wrote_at(old(buf)@, final(buf)@, at as int, transform_bytes(*t)),
{
    let ghost b0 = buf@;
    let at1: usize = write_float(t.x, buf, at);
    let ghost b1 = buf@;
    let at2: usize = write_float(t.y, buf, at1);
    let ghost b2 = buf@;
    proof {
        lemma_wrote_both(b0, b1, b2, at as int, le_bytes(t.x.bits), le_bytes(t.y.bits));
    }
    let ghost w2 = le_bytes(t.x.bits) + le_bytes(t.y.bits);
    let at3: usize = write_float(t.z, buf, at2);
    let ghost b3 = buf@;
    proof {
        lemma_wrote_both(b0, b2, b3, at as int, w2, le_bytes(t.z.bits));
    }
    let ghost w3 = w2 + le_bytes(t.z.bits);
    let at4: usize = write_float(t.yaw, buf, at3);
    let ghost b4 = buf@;
    proof {
        lemma_wrote_both(b0, b3, b4, at as int, w3, le_bytes(t.yaw.bits));
    }
    let ghost w4 = w3 + le_bytes(t.yaw.bits);
    let at5: usize = write_float(t.pitch, buf, at4);
    proof {
        lemma_wrote_both(b0, b4, buf@, at as int, w4, le_bytes(t.pitch.bits));
    }
    at5
}

fn write_hashes(hashes: &[u64], buf: &mut [u8], at: usize) -> (end: usize)
    requires
        at + 10 * hashes@.len() <= old(buf)@.len(),
    ensures
        end == at + hash_bytes(hashes@).len(),
        end <= at + 10 * hashes@.len(),
        wrote_at(old(buf)@, final(buf)@, at as int, hash_bytes(hashes@)),
{
    let mut end: usize = at;
    let mut i: usize = 0;
    proof {
        lemma_wrote_nothing(buf@, at as int);
        assert(hashes@.take(0) =~= Seq::<u64>::empty());
    }
    while i < hashes.len()
        invariant
            i <= hashes@.len(),
            at + 10 * hashes@.len() <= old(buf)@.len(),
            end == at + hash_bytes(hashes@.take(i as int)).len(),
            end <= at + 10 * i,
            wrote_at(old(buf)@, buf@, at as int, hash_bytes(hashes@.take(i as int))),
        decreases hashes@.len() - i,
    {
        let ghost before = buf@;
        let ghost init = hashes@.take(i as int);
        end = write_u64(hashes[i], buf, end);
        i = i + 1;
        proof {
            lemma_wrote_both(
                old(buf)@,
                before,
                buf@,
                at as int,
                hash_bytes(init),
                varint(hashes@[i - 1] as nat),
            );
            assert(hashes@.take(i as int).drop_last() =~= init);
        }
    }
    proof {
        assert(hashes@.take(i as int) =~= hashes@);
    }
    end
}

fn write_item(d: &ItemDelta, buf: &mut [u8], at: usize) -> (end: usize)
    requires
        at + 10 <= old(buf)@.len(),
    ensures
        end == at + item_bytes(*d).len(),
        end <= at + 10,
        wrote_at(old(buf)@, final(buf)@, at as int, item_bytes(*d)),
{
    let ghost b0 = buf@;
    let at1: usize = write_u32(d.item.0, buf, at);
    let ghost b1 = buf@;
    let at2: usize = write_i32(d.count, buf, at1);
    proof {
        lemma_wrote_both(
            b0,
            b1,
            buf@,
            at as int,
            varint(d.item.0 as nat),
            varint(zigzag(d.count)),
        );
    }
    at2
}

fn write_deltas(deltas: &[ItemDelta], buf: &mut [u8], at: usize) -> (end: usize)
    requires
        at + 10 * deltas@.len() <= old(buf)@.len(),
    ensures
        end == at + delta_bytes(deltas@).len(),
        end <= at + 10 * deltas@.len(),
        wrote_at(old(buf)@, final(buf)@, at as int, delta_bytes(deltas@)),
{
    let mut end: usize = at;
    let mut i: usize = 0;
    proof {
        lemma_wrote_nothing(buf@, at as int);
        assert(deltas@.take(0) =~= Seq::<ItemDelta>::empty());
    }
    while i < deltas.len()
        invariant
            i <= deltas@.len(),
            at + 10 * deltas@.len() <= old(buf)@.len(),
            end == at + delta_bytes(deltas@.take(i as int)).len(),
            end <= at + 10 * i,
            wrote_at(old(buf)@, buf@, at as int, delta_bytes(deltas@.take(i as int))),
        decreases deltas@.len() - i,
    {
        let ghost before = buf@;
        let ghost init = deltas@.take(i as int);
        end = write_item(&deltas[i], buf, end);
        i = i + 1;
        proof {
            lemma_wrote_both(
                old(buf)@,
                before,
                buf@,
                at as int,
                delta_bytes(init),
                item_bytes(deltas@[i - 1]),
            );
            assert(deltas@.take(i as int).drop_last() =~= init);
        }
    }
    proof {
        assert(deltas@.take(i as int) =~= deltas@);
    }
    end
}

fn write_hello(h: &Hello, buf: &mut [u8], at: usize) -> (end: usize)
    requires
        at + Message::MAX_ENCODED_LEN - 1 <= old(buf)@.len(),
    ensures
        end == at + hello_bytes(h@).len(),
        wrote_at(old(buf)@, final(buf)@, at as int, hello_bytes(h@)),
{
    let hashes = hashes_as_slice(&h.mod_hashes);
    let name = name_as_str(&h.name);
    proof {
        lemma_short_varint(hashes@.len());
        lemma_short_varint(encode_utf8(name@).len());
    }
    let ghost b0 = buf@;
    let at1: usize = write_u16(h.schema_version, buf, at);
    let ghost b1 = buf@;
    let ghost w1 = varint(h.schema_version as nat);
    let at2: usize = write_u32(h.client_build, buf, at1);
    let ghost b2 = buf@;
    let ghost w2 = w1 + varint(h.client_build as nat);
    proof {
        lemma_wrote_both(b0, b1, b2, at as int, w1, varint(h.client_build as nat));
    }
    let at3: usize = write_u32(hashes.len() as u32, buf, at2);
    let ghost b3 = buf@;
    let ghost w3 = w2 + varint(hashes@.len());
    proof {
        lemma_wrote_both(b0, b2, b3, at as int, w2, varint(hashes@.len()));
    }
    let at4: usize = write_hashes(hashes, buf, at3);
    let ghost b4 = buf@;
    let ghost w4 = w3 + hash_bytes(hashes@);
    proof {
        lemma_wrote_both(b0, b3, b4, at as int, w3, hash_bytes(hashes@));
    }
    let at5: usize = write_text(name, buf, at4);
    proof {
        lemma_wrote_both(b0, b4, buf@, at as int, w4, text(name@));
    }
    at5
}

fn write_movement(m: &MovementSample, buf: &mut [u8], at: usize) -> (end: usize)
    requires
        at + 32 <= old(buf)@.len(),
    ensures
        end == at + movement_bytes(*m).len(),
        wrote_at(old(buf)@, final(buf)@, at as int, movement_bytes(*m)),
{
    let ghost b0 = buf@;
    let at1: usize = write_u32(m.seq, buf, at);
    let ghost b1 = buf@;
    let ghost w1 = varint(m.seq as nat);
    let at2: usize = write_u32(m.actor.0, buf, at1);
    let ghost b2 = buf@;
    let ghost w2 = w1 + varint(m.actor.0 as nat);
    proof {
        lemma_wrote_both(b0, b1, b2, at as int, w1, varint(m.actor.0 as nat));
    }
    let at3: usize = write_transform(&m.transform, buf, at2);
    let ghost b3 = buf@;
    let ghost w3 = w2 + transform_bytes(m.transform);
    proof {
        lemma_wrote_both(b0, b2, b3, at as int, w2, transform_bytes(m.transform));
    }
    let at4: usize = write_bool(m.run, buf, at3);
    let ghost b4 = buf@;
    let ghost w4 = w3 + flag(m.run);
    proof {
        lemma_wrote_both(b0, b3, b4, at as int, w3, flag(m.run));
    }
    let at5: usize = write_bool(m.sneak, buf, at4);
    proof {
        lemma_wrote_both(b0, b4, buf@, at as int, w4, flag(m.sneak));
    }
    at5
}

fn write_hit(h: &HitIntent, buf: &mut [u8], at: usize) -> (end: usize)
    requires
        at + 26 <= old(buf)@.len(),
    ensures
        end == at + hit_bytes(*h).len(),
        wrote_at(old(buf)@, final(buf)@, at as int, hit_bytes(*h)),
{
    let ghost b0 = buf@;
    let at1: usize = write_u32(h.seq, buf, at);
    let ghost b1 = buf@;
    let ghost w1 = varint(h.seq as nat);
    let at2: usize = write_u32(h.attacker.0, buf, at1);
    let ghost b2 = buf@;
    let ghost w2 = w1 + varint(h.attacker.0 as nat);
    proof {
        lemma_wrote_both(b0, b1, b2, at as int, w1, varint(h.attacker.0 as nat));
    }
    let at3: usize = write_u32(h.target.0, buf, at2);
    let ghost b3 = buf@;
    let ghost w3 = w2 + varint(h.target.0 as nat);
    proof {
        lemma_wrote_both(b0, b2, b3, at as int, w2, varint(h.target.0 as nat));
    }
    let at4: usize = write_u32(h.weapon.0, buf, at3);
    let ghost b4 = buf@;
    let ghost w4 = w3 + varint(h.weapon.0 as nat);
    proof {
        lemma_wrote_both(b0, b3, b4, at as int, w3, varint(h.weapon.0 as nat));
    }
    let at5: usize = write_bool(h.power_attack, buf, at4);
    let ghost b5 = buf@;
    let ghost w5 = w4 + flag(h.power_attack);
    proof {
        lemma_wrote_both(b0, b4, b5, at as int, w4, flag(h.power_attack));
    }
    let at6: usize = write_u32(h.client_time_ms, buf, at5);
    proof {
        lemma_wrote_both(b0, b5, buf@, at as int, w5, varint(h.client_time_ms as nat));
    }
    at6
}

fn write_hosted(s: &HostedActorState, buf: &mut [u8], at: usize) -> (end: usize)
    requires
        at + 354 <= old(buf)@.len(),
    ensures
        end == at + hosted_bytes(s@).len(),
        wrote_at(old(buf)@, final(buf)@, at as int, hosted_bytes(s@)),
{
    let deltas = deltas_as_slice(&s.inventory_delta);
    let ghost b0 = buf@;
    let at1: usize = write_u32(s.actor.0, buf, at);
    let ghost b1 = buf@;
    let ghost w1 = varint(s.actor.0 as nat);
    let at2: usize = write_transform(&s.transform, buf, at1);
    let ghost b2 = buf@;
    let ghost w2 = w1 + transform_bytes(s.transform);
    proof {
        lemma_wrote_both(b0, b1, b2, at as int, w1, transform_bytes(s.transform));
    }
    let at3: usize = write_float(s.health, buf, at2);
    let ghost b3 = buf@;
    let ghost w3 = w2 + le_bytes(s.health.bits);
    proof {
        lemma_wrote_both(b0, b2, b3, at as int, w2, le_bytes(s.health.bits));
    }
    let at4: usize = write_u32(deltas.len() as u32, buf, at3);
    let ghost b4 = buf@;
    let ghost w4 = w3 + varint(deltas@.len());
    proof {
        lemma_wrote_both(b0, b3, b4, at as int, w3, varint(deltas@.len()));
    }
    let at5: usize = write_deltas(deltas, buf, at4);
    proof {
        lemma_wrote_both(b0, b4, buf@, at as int, w4, delta_bytes(deltas@));
    }
    at5
}

/// Writes what follows the id.
fn write_body(msg: &Message, buf: &mut [u8], at: usize) -> (end: usize)
    requires
        at + Message::MAX_ENCODED_LEN - 1 <= old(buf)@.len(),
    ensures
        end == at + body(msg@).len(),
        wrote_at(old(buf)@, final(buf)@, at as int, body(msg@)),
{
    let ghost b0 = buf@;
    match msg {
        Message::Hello(h) => write_hello(h, buf, at),
        Message::Welcome { client_id, server_time_ms } => {
            let at1: usize = write_u64(client_id.0, buf, at);
            let ghost b1 = buf@;
            let at2: usize = write_u64(*server_time_ms, buf, at1);
            proof {
                lemma_wrote_both(
                    b0,
                    b1,
                    buf@,
                    at as int,
                    varint(client_id.0 as nat),
                    varint(*server_time_ms as nat),
                );
            }
            at2
        },
        Message::Refuse { reason } => write_u16(*reason, buf, at),
        Message::Movement(m) => write_movement(m, buf, at),
        Message::Hit(h) => write_hit(h, buf, at),
        Message::HostedActor(s) => write_hosted(s, buf, at),
        Message::InventoryApply { owner, delta } => {
            let at1: usize = write_u32(owner.0, buf, at);
            let ghost b1 = buf@;
            let at2: usize = write_item(delta, buf, at1);
            proof {
                lemma_wrote_both(
                    b0,
                    b1,
                    buf@,
                    at as int,
                    varint(owner.0 as nat),
                    item_bytes(*delta),
                );
            }
            at2
        },
        Message::HostGrant { cell } => write_u32(cell.0, buf, at),
        Message::HostRelease { cell } => write_u32(cell.0, buf, at),
    }
}

/// The id of a message's variant.
fn variant_id(msg: &Message) -> (r: u32)
    ensures
        r == tag(msg@),
        r <= 8,
{
    match msg {
        Message::Hello(_) => 0,
        Message::Welcome { .. } => 1,
        Message::Refuse { .. } => 2,
        Message::Movement(_) => 3,
        Message::Hit(_) => 4,
        Message::HostedActor(_) => 5,
        Message::InventoryApply { .. } => 6,
        Message::HostGrant { .. } => 7,
        Message::HostRelease { .. } => 8,
    }
}

/// Writes a message at the front of a buffer that has room for any message.
pub(crate) fn write_message(msg: &Message, buf: &mut [u8]) -> (end: usize)
    requires
        Message::MAX_ENCODED_LEN <= old(buf)@.len(),
    ensures
        end == encoding(msg@).len(),
        wrote_at(old(buf)@, final(buf)@, 0, encoding(msg@)),
{
    let id: u32 = variant_id(msg);
    proof {
        lemma_short_varint(id as nat);
    }
    let ghost b0 = buf@;
    let at: usize = write_u32(id, buf, 0);
    let ghost b1 = buf@;
    let end: usize = write_body(msg, buf, at);
    proof {
        lemma_wrote_both(b0, b1, buf@, 0, varint(id as nat), body(msg@));
    }
    end
}

} // verus!
