//! heapless's fixed-capacity collections, as the messages hold them.
use super::cap::{INVENTORY_DELTA, MODS, NAME};
use super::ItemDelta;
use vstd::prelude::*;
use vstd::utf8::encode_utf8;

verus! {

/// `heapless::Vec`, opaque: what one holds is known by the names below.
#[verifier::external_type_specification]
#[verifier::external_body]
#[verifier::reject_recursive_types(Item)]
pub struct ExVec<Item, const N: usize>(heapless::Vec<Item, N>);

/// `heapless::String`, opaque: what one holds is known by the name below.
#[verifier::external_type_specification]
#[verifier::external_body]
pub struct ExString<const N: usize>(heapless::String<N>);

/// What a list of mod hashes holds, in order.
pub uninterp spec fn hash_list(v: heapless::Vec<u64, MODS>) -> Seq<u64>;

/// What a list of inventory changes holds, in order.
pub uninterp spec fn delta_list(v: heapless::Vec<ItemDelta, INVENTORY_DELTA>) -> Seq<ItemDelta>;

/// The characters of a bounded name.
pub uninterp spec fn name_chars(v: heapless::String<NAME>) -> Seq<char>;

/// `heapless::Vec::as_slice`: the elements in order, at most as many as the
/// capacity.
#[verifier::external_body]
pub(crate) fn hashes_as_slice(v: &heapless::Vec<u64, MODS>) -> (r: &[u64])
    ensures
        r@ == hash_list(*v),
        r@.len() <= MODS,
{
    v.as_slice()
}

/// `heapless::Vec::from_slice`: a list of the same elements, or `None` where
/// there are more of them than the capacity.
#[verifier::external_body]
pub(crate) fn hashes_from_slice(s: &[u64]) -> (r: Option<heapless::Vec<u64, MODS>>)
    ensures
        match r {
            Some(v) => s@.len() <= MODS && hash_list(v) == s@,
            None => s@.len() > MODS,
        },
{
    heapless::Vec::from_slice(s).ok()
}

/// `heapless::Vec::as_slice`: the elements in order, at most as many as the
/// capacity.
#[verifier::external_body]
pub(crate) fn deltas_as_slice(v: &heapless::Vec<ItemDelta, INVENTORY_DELTA>) -> (r: &[ItemDelta])
    ensures
        r@ == delta_list(*v),
        r@.len() <= INVENTORY_DELTA,
{
    v.as_slice()
}

/// `heapless::Vec::from_slice`: a list of the same elements, or `None` where
/// there are more of them than the capacity.
#[verifier::external_body]
pub(crate) fn deltas_from_slice(s: &[ItemDelta]) -> (r: Option<heapless::Vec<ItemDelta, INVENTORY_DELTA>>)
    ensures
        match r {
            Some(v) => s@.len() <= INVENTORY_DELTA && delta_list(v) == s@,
            None => s@.len() > INVENTORY_DELTA,
        },
{
    heapless::Vec::from_slice(s).ok()
}

/// `heapless::String::as_str`: the text, whose UTF-8 bytes are at most as many
/// as the capacity.
#[verifier::external_body]
pub(crate) fn name_as_str(v: &heapless::String<NAME>) -> (r: &str)
    ensures
        r@ == name_chars(*v),
        encode_utf8(r@).len() <= NAME,
{
    v.as_str()
}

/// `heapless::String::from_str`: the same text, or `None` where its UTF-8 bytes
/// are more than the capacity.
#[verifier::external_body]
pub(crate) fn name_from_str(s: &str) -> (r: Option<heapless::String<NAME>>)
    ensures
        match r {
            Some(v) => encode_utf8(s@).len() <= NAME && name_chars(v) == s@,
            None => encode_utf8(s@).len() > NAME,
        },
{
    s.parse().ok()
}

} // verus!
