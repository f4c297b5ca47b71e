//! An operation-log engine for competitive events: a tournament's whole life
//! is an append-only log of operations, and every observable state — roster,
//! rounds, pairings, standings — is the deterministic replay of that log.

pub mod deck;
pub mod error;
pub mod fluid_pairings;
pub mod identifiers;
pub mod player;
pub mod player_registry;
pub mod round;
pub mod round_registry;
pub mod scoring;
pub mod standard_scoring;
pub mod settings;
pub mod swiss_pairings;
pub mod tournament;
pub mod operations;
pub mod op_log;

use vstd::prelude::*;

verus! {

} // verus!
