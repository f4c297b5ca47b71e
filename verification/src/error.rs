//! The closed set of errors that a mutating tournament operation can return.

use vstd::prelude::*;

verus! {

/// Everything that can go wrong while applying an operation to a tournament.
/// Failures leave the tournament unchanged; the operation log propagates them
/// verbatim on a failed append.
#[derive(Debug, Clone, Copy, PartialEq, Eq, Structural)]
pub enum TournamentError {
    /// No player matches the given identifier.
    PlayerLookup,
    /// No round matches the given identifier.
    RoundLookup,
    /// The player has no deck of the given name.
    DeckLookup,
    /// A result or confirmation names a player outside the round.
    PlayerNotInRound,
    /// A bye was recorded for a round that does not have exactly one participant.
    InvalidBye,
    /// The tournament's lifecycle status does not allow the operation.
    IncorrectStatus,
    /// Player registration is closed.
    RegClosed,
    /// A pairing setting targets a strategy the tournament does not use.
    IncompatiblePairingSystem,
    /// A scoring setting targets a strategy the tournament does not use.
    IncompatibleScoringSystem,
}

impl TournamentError {
    /// A short human-readable label for the error.
    pub fn describe(&self) -> (r: &'static str)
        ensures
            r@ == self.spec_describe(),
    {
        match self {
            TournamentError::PlayerLookup => "player could not be found",
            TournamentError::RoundLookup => "round could not be found",
            TournamentError::DeckLookup => "deck could not be found",
            TournamentError::PlayerNotInRound => "player is not in that round",
            TournamentError::InvalidBye => "byes require exactly one participant",
            TournamentError::IncorrectStatus => "incorrect tournament status",
            TournamentError::RegClosed => "registration is closed",
            TournamentError::IncompatiblePairingSystem => "incompatible pairing system",
            TournamentError::IncompatibleScoringSystem => "incompatible scoring system",
        }
    }

    /// The label that `describe` returns, as a sequence of characters.
    pub open spec fn spec_describe(&self) -> Seq<char> {
        match self {
            TournamentError::PlayerLookup => "player could not be found"@,
            TournamentError::RoundLookup => "round could not be found"@,
            TournamentError::DeckLookup => "deck could not be found"@,
            TournamentError::PlayerNotInRound => "player is not in that round"@,
            TournamentError::InvalidBye => "byes require exactly one participant"@,
            TournamentError::IncorrectStatus => "incorrect tournament status"@,
            TournamentError::RegClosed => "registration is closed"@,
            TournamentError::IncompatiblePairingSystem => "incompatible pairing system"@,
            TournamentError::IncompatibleScoringSystem => "incompatible scoring system"@,
        }
    }
}

} // verus!
