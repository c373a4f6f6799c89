//! Reading messages off the front of a run of bytes.
use super::format::{
    lemma_read_deltas_none, lemma_read_hashes_none, parse, read_apply, read_body, read_delta_list,
    read_deltas, read_float, read_form, read_hash_list, read_hashes, read_hello, read_hit,
    read_hosted, read_item, read_movement, read_name, read_transform, read_welcome,
};
use crate::primitive::{
    take_bool, take_four, take_i32, take_len, take_text, take_u16, take_u32, take_u64,
};
use crate::scalar::{join, F32};
use crate::schema::bounded::{
    delta_list, deltas_from_slice, hash_list, hashes_from_slice, name_chars, name_from_str,
};
use crate::schema::cap::{INVENTORY_DELTA, MODS, NAME};
use crate::schema::{
    ClientId, FormId, Hello, HitIntent, HostedActorState, ItemDelta, Message, MovementSample,
    Transform,
};
use vstd::prelude::*;

verus! {

fn take_float(bytes: &[u8]) -> (r: Option<(F32, &[u8])>)
    ensures
        match r {
            Some((v, rest)) => read_float(bytes@) == Some((v, rest@)),
            None => read_float(bytes@) is None,
        },
{
    let (four, rest) = take_four(bytes)?;
    Some((join(four), rest))
}

fn take_form(bytes: &[u8]) -> (r: Option<(FormId, &[u8])>)
    ensures
        match r {
            Some((v, rest)) => read_form(bytes@) == Some((v, rest@)),
            None => read_form(bytes@) is None,
        },
{
    let (v, rest) = take_u32(bytes)?;
    Some((FormId(v), rest))
}

fn take_transform(bytes: &[u8]) -> (r: Option<(Transform, &[u8])>)
    ensures
        match r {
            Some((v, rest)) => read_transform(bytes@) == Some((v, rest@)),
            None => read_transform(bytes@) is None,
        },
{
    let (x, b1) = take_float(bytes)?;
    let (y, b2) = take_float(b1)?;
    let (z, b3) = take_float(b2)?;
    let (yaw, b4) = take_float(b3)?;
    let (pitch, b5) = take_float(b4)?;
    Some((Transform { x, y, z, yaw, pitch }, b5))
}

fn take_hashes(bytes: &[u8]) -> (r: Option<(heapless::Vec<u64, MODS>, &[u8])>)
    ensures
        match r {
            Some((v, rest)) => read_hash_list(bytes@) == Some((hash_list(v), rest@)),
            None => read_hash_list(bytes@) is None,
        },
{
    let (n, start) = take_len(bytes)?;
    if n > MODS {
        return None;
    }
    let mut hashes: Vec<u64> = Vec::new();
    let mut rest = start;
    let mut i: usize = 0;
    while i < n
        invariant
            i <= n,
            read_hashes(start@, i as nat) == Some((hashes@, rest@)),
            hashes@.len() == i,
            n <= MODS,
            read_hash_list(bytes@) == read_hashes(start@, n as nat),
        decreases n - i,
    {
        match take_u64(rest) {
            Some((hash, after)) => {
                hashes.push(hash);
                rest = after;
            },
            None => {
                proof {
                    lemma_read_hashes_none(start@, (i + 1) as nat, n as nat);
                }
                return None;
            },
        }
        i = i + 1;
    }
    let list = hashes_from_slice(hashes.as_slice())?;
    Some((list, rest))
}

fn take_item(bytes: &[u8]) -> (r: Option<(ItemDelta, &[u8])>)
    ensures
        match r {
            Some((v, rest)) => read_item(bytes@) == Some((v, rest@)),
            None => read_item(bytes@) is None,
        },
{
    let (item, b1) = take_form(bytes)?;
    let (count, b2) = take_i32(b1)?;
    Some((ItemDelta { item, count }, b2))
}

fn take_deltas(bytes: &[u8]) -> (r: Option<(heapless::Vec<ItemDelta, INVENTORY_DELTA>, &[u8])>)
    ensures
        match r {
            Some((v, rest)) => read_delta_list(bytes@) == Some((delta_list(v), rest@)),
            None => read_delta_list(bytes@) is None,
        },
{
    let (n, start) = take_len(bytes)?;
    if n > INVENTORY_DELTA {
        return None;
    }
    let mut deltas: Vec<ItemDelta> = Vec::new();
    let mut rest = start;
    let mut i: usize = 0;
    while i < n
        invariant
            i <= n,
            read_deltas(start@, i as nat) == Some((deltas@, rest@)),
            deltas@.len() == i,
            n <= INVENTORY_DELTA,
            read_delta_list(bytes@) == read_deltas(start@, n as nat),
        decreases n - i,
    {
        match take_item(rest) {
            Some((delta, after)) => {
                deltas.push(delta);
                rest = after;
            },
            None => {
                proof {
                    lemma_read_deltas_none(start@, (i + 1) as nat, n as nat);
                }
                return None;
            },
        }
        i = i + 1;
    }
    let list = deltas_from_slice(deltas.as_slice())?;
    Some((list, rest))
}

fn take_name(bytes: &[u8]) -> (r: Option<(heapless::String<NAME>, &[u8])>)
    ensures
        match r {
            Some((v, rest)) => read_name(bytes@) == Some((name_chars(v), rest@)),
            None => read_name(bytes@) is None,
        },
{
    let (s, rest) = take_text(bytes)?;
    let name = name_from_str(s)?;
    Some((name, rest))
}

fn take_hello(bytes: &[u8]) -> (r: Option<(Hello, &[u8])>)
    ensures
        match r {
            Some((v, rest)) => read_hello(bytes@) == Some((v@, rest@)),
            None => read_hello(bytes@) is None,
        },
{
    let (schema_version, b1) = take_u16(bytes)?;
    let (client_build, b2) = take_u32(b1)?;
    let (mod_hashes, b3) = take_hashes(b2)?;
    let (name, b4) = take_name(b3)?;
    Some((Hello { schema_version, client_build, mod_hashes, name }, b4))
}

fn take_movement(bytes: &[u8]) -> (r: Option<(MovementSample, &[u8])>)
    ensures
        match r {
            Some((v, rest)) => read_movement(bytes@) == Some((v, rest@)),
            None => read_movement(bytes@) is None,
        },
{
    let (seq, b1) = take_u32(bytes)?;
    let (actor, b2) = take_form(b1)?;
    let (transform, b3) = take_transform(b2)?;
    let (run, b4) = take_bool(b3)?;
    let (sneak, b5) = take_bool(b4)?;
    Some((MovementSample { seq, actor, transform, run, sneak }, b5))
}

fn take_hit(bytes: &[u8]) -> (r: Option<(HitIntent, &[u8])>)
    ensures
        match r {
            Some((v, rest)) => read_hit(bytes@) == Some((v, rest@)),
            None => read_hit(bytes@) is None,
        },
{
    let (seq, b1) = take_u32(bytes)?;
    let (attacker, b2) = take_form(b1)?;
    let (target, b3) = take_form(b2)?;
    let (weapon, b4) = take_form(b3)?;
    let (power_attack, b5) = take_bool(b4)?;
    let (client_time_ms, b6) = take_u32(b5)?;
    Some((HitIntent { seq, attacker, target, weapon, power_attack, client_time_ms }, b6))
}

fn take_hosted(bytes: &[u8]) -> (r: Option<(HostedActorState, &[u8])>)
    ensures
        match r {
            Some((v, rest)) => read_hosted(bytes@) == Some((v@, rest@)),
            None => read_hosted(bytes@) is None,
        },
{
    let (actor, b1) = take_form(bytes)?;
    let (transform, b2) = take_transform(b1)?;
    let (health, b3) = take_float(b2)?;
    let (inventory_delta, b4) = take_deltas(b3)?;
    Some((HostedActorState { actor, transform, health, inventory_delta }, b4))
}

fn take_welcome(bytes: &[u8]) -> (r: Option<(Message, &[u8])>)
    ensures
        match r {
            Some((v, rest)) => read_welcome(bytes@) == Some((v@, rest@)),
            None => read_welcome(bytes@) is None,
        },
{
    let (id, b1) = take_u64(bytes)?;
    let (server_time_ms, b2) = take_u64(b1)?;
    Some((Message::Welcome { client_id: ClientId(id), server_time_ms }, b2))
}

fn take_apply(bytes: &[u8]) -> (r: Option<(Message, &[u8])>)
    ensures
        match r {
            Some((v, rest)) => read_apply(bytes@) == Some((v@, rest@)),
            None => read_apply(bytes@) is None,
        },
{
    let (owner, b1) = take_form(bytes)?;
    let (delta, b2) = take_item(b1)?;
    Some((Message::InventoryApply { owner, delta }, b2))
}

/// The content of the variant with this id.
fn take_body(id: u32, bytes: &[u8]) -> (r: Option<(Message, &[u8])>)
    ensures
        match r {
            Some((v, rest)) => read_body(id, bytes@) == Some((v@, rest@)),
            None => read_body(id, bytes@) is None,
        },
{
    if id == 0 {
        let (h, rest) = take_hello(bytes)?;
        Some((Message::Hello(h), rest))
    } else if id == 1 {
        take_welcome(bytes)
    } else if id == 2 {
        let (reason, rest) = take_u16(bytes)?;
        Some((Message::Refuse { reason }, rest))
    } else if id == 3 {
        let (m, rest) = take_movement(bytes)?;
        Some((Message::Movement(m), rest))
    } else if id == 4 {
        let (h, rest) = take_hit(bytes)?;
        Some((Message::Hit(h), rest))
    } else if id == 5 {
        let (s, rest) = take_hosted(bytes)?;
        Some((Message::HostedActor(s), rest))
    } else if id == 6 {
        take_apply(bytes)
    } else if id == 7 {
        let (cell, rest) = take_form(bytes)?;
        Some((Message::HostGrant { cell }, rest))
    } else if id == 8 {
        let (cell, rest) = take_form(bytes)?;
        Some((Message::HostRelease { cell }, rest))
    } else {
        None
    }
}

/// One message off the front, and the bytes after it.
pub(crate) fn take_message(bytes: &[u8]) -> (r: Option<(Message, &[u8])>)
    ensures
        match r {
            Some((v, rest)) => parse(bytes@) == Some((v@, rest@)),
            None => parse(bytes@) is None,
        },
{
    let (id, rest) = take_u32(bytes)?;
    take_body(id, rest)
}

} // verus!
