//! The network edge of a multiplayer game.
//!
//! [`schema`] says what crosses the network, [`codec`] how it is written and
//! read, [`validate`] what is well-formed and within rate, and [`transport`]
//! takes packets through all of it. [`bridge`] and [`client`] flatten the
//! outcome for the two C++ sides, [`mirror`] builds arbitrary messages for
//! fuzzing, and [`difftest`] compares what two server stacks did with one
//! session. [`primitive`], [`scalar`] and [`decimal`] are what these stand on.
pub mod bridge;
pub mod client;
pub mod codec;
pub mod decimal;
pub mod difftest;
pub mod mirror;
pub mod primitive;
pub mod scalar;
pub mod schema;
pub mod transport;
pub mod validate;
