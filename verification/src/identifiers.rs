//! Entity-tagged identifiers. Every entity is named by a 128-bit value, but
//! each entity kind gets its own newtype so that ids of different kinds can
//! never be mixed up: comparing a player id with a round id is a compile-time
//! error, not a runtime check.

use vstd::prelude::*;

verus! {

/// A type-checked 128-bit id for players.
#[derive(Debug, Clone, Copy, PartialEq, Eq, Hash, Structural)]
pub struct PlayerId(pub u128);

/// A type-checked 128-bit id for rounds.
#[derive(Debug, Clone, Copy, PartialEq, Eq, Hash, Structural)]
pub struct RoundId(pub u128);

/// A type-checked 128-bit id for tournaments.
#[derive(Debug, Clone, Copy, PartialEq, Eq, Hash, Structural)]
pub struct TournamentId(pub u128);

/// A type-checked 128-bit id for operations in a tournament's log.
#[derive(Debug, Clone, Copy, PartialEq, Eq, Hash, Structural)]
pub struct OpId(pub u128);

/// Relies on uuid::Uuid::new_v4, which draws a fresh random version-4 UUID:
/// the value depends on the process's randomness source, so nothing is
/// promised about it.
#[verifier::external_body]
pub(crate) fn fresh_id_bits() -> u128 {
    uuid::Uuid::new_v4().as_u128()
}

/// Ways of naming a player: by id or by display name.
#[derive(Debug, PartialEq, Eq, Hash)]
pub enum PlayerIdentifier {
    /// The player's id.
    Id(PlayerId),
    /// The player's display name.
    Name(String),
}

/// Ways of naming a round: by id or by match number.
#[derive(Debug, PartialEq, Eq, Hash)]
pub enum RoundIdentifier {
    /// The round's id.
    Id(RoundId),
    /// The round's match number.
    Number(u64),
}

/// Ways of naming a tournament: by id or by name.
#[derive(Debug, Clone, PartialEq, Eq, Hash)]
pub enum TournamentIdentifier {
    /// The tournament's id.
    Id(TournamentId),
    /// The tournament's name.
    Name(String),
}

/// The observable content of a `PlayerIdentifier`: names compare by their
/// character sequences, not by `String` values.
pub enum PlayerIdentView {
    Id(u128),
    Name(Seq<char>),
}

impl View for PlayerIdentifier {
    type V = PlayerIdentView;

    open spec fn view(&self) -> PlayerIdentView {
        match self {
            PlayerIdentifier::Id(id) => PlayerIdentView::Id(id.0),
            PlayerIdentifier::Name(n) => PlayerIdentView::Name(n@),
        }
    }
}

/// The observable content of a `RoundIdentifier`.
pub enum RoundIdentView {
    Id(u128),
    Number(u64),
}

impl View for RoundIdentifier {
    type V = RoundIdentView;

    open spec fn view(&self) -> RoundIdentView {
        match self {
            RoundIdentifier::Id(id) => RoundIdentView::Id(id.0),
            RoundIdentifier::Number(n) => RoundIdentView::Number(*n),
        }
    }
}

} // verus!
