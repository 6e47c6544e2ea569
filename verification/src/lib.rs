//! Dawn: a cryptocurrency whose consensus rests on weather readings
//! ("beacons") and verifiable delay functions instead of proof of work.
//!
//! This crate holds the node's verified logic: keys and signatures, the
//! transaction and block rules, the unspent-output bookkeeping, the chain,
//! the node state and the state machine that reacts to events.
pub mod beacon;
pub mod blockchain;
pub mod config;
pub mod node;
pub mod p2p;
pub mod settings;
pub mod state;
pub mod update;
pub mod util;
