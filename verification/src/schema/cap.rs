//! Capacities. Named so the reason for each number is greppable.
use vstd::prelude::*;

verus! {

/// Longest player or actor name carried on the wire, in UTF-8 bytes.
pub const NAME: usize = 64;

/// Items in one inventory delta; larger changes are split by the sender.
pub const INVENTORY_DELTA: usize = 32;

/// Active effects reported in one record message.
pub const EFFECTS: usize = 24;

/// Mods in a load-order hash list.
pub const MODS: usize = 255;

} // verus!
