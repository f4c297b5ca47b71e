//! Adjustable tournament settings. Strategy-specific settings name the
//! strategy they target; applying one against a tournament configured with a
//! different strategy is an error.

use vstd::prelude::*;

verus! {

/// Settings understood by the Swiss pairing strategy.
#[derive(Debug, Clone, Copy, PartialEq, Eq, Structural)]
pub enum SwissPairingsSetting {
    /// How many players sit at one table.
    MatchSize(u8),
    /// Whether players must check in before pairing.
    DoCheckIns(bool),
}

/// Settings understood by the fluid pairing strategy.
#[derive(Debug, Clone, Copy, PartialEq, Eq, Structural)]
pub enum FluidPairingsSetting {
    /// How many players sit at one table.
    MatchSize(u8),
}

/// A pairing setting together with the strategy it targets.
#[derive(Debug, Clone, Copy, PartialEq, Eq, Structural)]
pub enum PairingSetting {
    Swiss(SwissPairingsSetting),
    Fluid(FluidPairingsSetting),
}

/// Settings understood by the standard scoring strategy. Points are integer
/// units; a draw is worth its own (usually smaller) number of units.
#[derive(Debug, Clone, Copy, PartialEq, Eq, Structural)]
pub enum StandardScoringSetting {
    /// Units awarded for winning a certified round.
    MatchWinPoints(u64),
    /// Units awarded to each player of a certified drawn round.
    MatchDrawPoints(u64),
}

/// A scoring setting together with the strategy it targets.
#[derive(Debug, Clone, Copy, PartialEq, Eq, Structural)]
pub enum ScoringSetting {
    Standard(StandardScoringSetting),
}

/// Every tournament-wide knob an operation can turn.
#[derive(Debug, PartialEq, Eq)]
pub enum TournamentSetting {
    /// The format label shown for the tournament.
    Format(String),
    /// The base from which table numbers are assigned.
    StartingTableNumber(u64),
    /// Whether table numbers are used at all.
    UseTableNumbers(bool),
    /// The fewest decks a player may register.
    MinDeckCount(u8),
    /// The most decks a player may register.
    MaxDeckCount(u8),
    /// Whether players must check in.
    RequireCheckIn(bool),
    /// Whether players must register a deck.
    RequireDeckReg(bool),
    /// A strategy-specific pairing setting.
    PairingSetting(PairingSetting),
    /// A strategy-specific scoring setting.
    ScoringSetting(ScoringSetting),
}

/// The observable content of a `TournamentSetting`.
pub enum TournamentSettingView {
    Format(Seq<char>),
    StartingTableNumber(u64),
    UseTableNumbers(bool),
    MinDeckCount(u8),
    MaxDeckCount(u8),
    RequireCheckIn(bool),
    RequireDeckReg(bool),
    PairingSetting(PairingSetting),
    ScoringSetting(ScoringSetting),
}

impl View for TournamentSetting {
    type V = TournamentSettingView;

    open spec fn view(&self) -> TournamentSettingView {
        match self {
            TournamentSetting::Format(f) => TournamentSettingView::Format(f@),
            TournamentSetting::StartingTableNumber(n) => TournamentSettingView::StartingTableNumber(
                *n,
            ),
            TournamentSetting::UseTableNumbers(b) => TournamentSettingView::UseTableNumbers(*b),
            TournamentSetting::MinDeckCount(c) => TournamentSettingView::MinDeckCount(*c),
            TournamentSetting::MaxDeckCount(c) => TournamentSettingView::MaxDeckCount(*c),
            TournamentSetting::RequireCheckIn(b) => TournamentSettingView::RequireCheckIn(*b),
            TournamentSetting::RequireDeckReg(b) => TournamentSettingView::RequireDeckReg(*b),
            TournamentSetting::PairingSetting(s) => TournamentSettingView::PairingSetting(*s),
            TournamentSetting::ScoringSetting(s) => TournamentSettingView::ScoringSetting(*s),
        }
    }
}

impl Clone for TournamentSetting {
    fn clone(&self) -> (r: Self)
        ensures
            r@ == self@,
    {
        match self {
            TournamentSetting::Format(f) => TournamentSetting::Format(f.clone()),
            TournamentSetting::StartingTableNumber(n) => TournamentSetting::StartingTableNumber(
                *n,
            ),
            TournamentSetting::UseTableNumbers(b) => TournamentSetting::UseTableNumbers(*b),
            TournamentSetting::MinDeckCount(c) => TournamentSetting::MinDeckCount(*c),
            TournamentSetting::MaxDeckCount(c) => TournamentSetting::MaxDeckCount(*c),
            TournamentSetting::RequireCheckIn(b) => TournamentSetting::RequireCheckIn(*b),
            TournamentSetting::RequireDeckReg(b) => TournamentSetting::RequireDeckReg(*b),
            TournamentSetting::PairingSetting(s) => TournamentSetting::PairingSetting(*s),
            TournamentSetting::ScoringSetting(s) => TournamentSetting::ScoringSetting(*s),
        }
    }
}

} // verus!
