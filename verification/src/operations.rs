//! The operations a tournament understands. An operation is immutable once
//! created: it carries its own id, and once appended to a log, the sequence
//! number it was appended under.

use vstd::prelude::*;

use crate::error::TournamentError;
use crate::identifiers::{
    OpId, PlayerIdentView, PlayerIdentifier, RoundIdentView, RoundIdentifier,
};
use crate::round::{RoundResult, RoundStatus};
use crate::settings::{TournamentSetting, TournamentSettingView};

verus! {

/// Every mutating action a tournament accepts. Each variant carries only the
/// data needed to apply it, never a snapshot of state.
#[derive(Debug)]
pub enum TournOp {
    /// Opens or closes registration.
    UpdateReg(bool),
    /// Planned -> Started.
    Start(),
    /// Started -> Frozen.
    Freeze(),
    /// Frozen -> Started.
    Thaw(),
    /// Started -> Ended (terminal).
    End(),
    /// Started -> Cancelled (terminal).
    Cancel(),
    /// Marks a player as checked in.
    CheckIn(PlayerIdentifier),
    /// Adds a player under a display name.
    RegisterPlayer(String),
    /// Reports a result for a round.
    RecordResult(RoundIdentifier, RoundResult),
    /// Confirms a player's active round.
    ConfirmResult(PlayerIdentifier),
    /// A player leaves; kept with status Dropped.
    DropPlayer(PlayerIdentifier),
    /// An organizer removes a player; kept with status Dropped.
    AdminDropPlayer(PlayerIdentifier),
    /// Registers a deck under a name for a player.
    AddDeck(PlayerIdentifier, String, mtgjson::DeckSet),
    /// Removes a player's deck by name.
    RemoveDeck(PlayerIdentifier, String),
    /// Sets a player's in-game name.
    SetGamerTag(PlayerIdentifier, String),
    /// Marks a player ready for pairing; fluid pairing may form rounds.
    ReadyPlayer(PlayerIdentifier),
    /// Withdraws a player's readiness; a no-op if not ready.
    UnReadyPlayer(PlayerIdentifier),
    /// Turns a tournament-wide knob.
    UpdateTournSetting(TournamentSetting),
    /// Awards a bye: a one-player round, immediately certified.
    GiveBye(PlayerIdentifier),
    /// Creates a round with exactly the named players.
    CreateRound(Vec<PlayerIdentifier>),
    /// Asks the pairing strategy to pair everyone currently eligible.
    PairRound(),
    /// Grants a round extra seconds.
    TimeExtension(RoundIdentifier, u64),
}

/// The observable content of a sequence of player identifiers.
pub open spec fn idents_view(s: Seq<PlayerIdentifier>) -> Seq<PlayerIdentView> {
    s.map_values(|p: PlayerIdentifier| p@)
}

/// The observable content of a sequence of round identifiers.
pub open spec fn round_idents_view(s: Seq<RoundIdentifier>) -> Seq<RoundIdentView> {
    s.map_values(|r: RoundIdentifier| r@)
}

/// The observable content of a `TournOp`.
pub enum TournOpView {
    UpdateReg(bool),
    Start,
    Freeze,
    Thaw,
    End,
    Cancel,
    CheckIn(PlayerIdentView),
    RegisterPlayer(Seq<char>),
    RecordResult(RoundIdentView, RoundResult),
    ConfirmResult(PlayerIdentView),
    DropPlayer(PlayerIdentView),
    AdminDropPlayer(PlayerIdentView),
    AddDeck(PlayerIdentView, Seq<char>, mtgjson::DeckSet),
    RemoveDeck(PlayerIdentView, Seq<char>),
    SetGamerTag(PlayerIdentView, Seq<char>),
    ReadyPlayer(PlayerIdentView),
    UnReadyPlayer(PlayerIdentView),
    UpdateTournSetting(TournamentSettingView),
    GiveBye(PlayerIdentView),
    CreateRound(Seq<PlayerIdentView>),
    PairRound,
    TimeExtension(RoundIdentView, u64),
}

impl View for TournOp {
    type V = TournOpView;

    open spec fn view(&self) -> TournOpView {
        match self {
            TournOp::UpdateReg(b) => TournOpView::UpdateReg(*b),
            TournOp::Start() => TournOpView::Start,
            TournOp::Freeze() => TournOpView::Freeze,
            TournOp::Thaw() => TournOpView::Thaw,
            TournOp::End() => TournOpView::End,
            TournOp::Cancel() => TournOpView::Cancel,
            TournOp::CheckIn(p) => TournOpView::CheckIn(p@),
            TournOp::RegisterPlayer(n) => TournOpView::RegisterPlayer(n@),
            TournOp::RecordResult(r, res) => TournOpView::RecordResult(r@, *res),
            TournOp::ConfirmResult(p) => TournOpView::ConfirmResult(p@),
            TournOp::DropPlayer(p) => TournOpView::DropPlayer(p@),
            TournOp::AdminDropPlayer(p) => TournOpView::AdminDropPlayer(p@),
            TournOp::AddDeck(p, n, d) => TournOpView::AddDeck(p@, n@, *d),
            TournOp::RemoveDeck(p, n) => TournOpView::RemoveDeck(p@, n@),
            TournOp::SetGamerTag(p, n) => TournOpView::SetGamerTag(p@, n@),
            TournOp::ReadyPlayer(p) => TournOpView::ReadyPlayer(p@),
            TournOp::UnReadyPlayer(p) => TournOpView::UnReadyPlayer(p@),
            TournOp::UpdateTournSetting(s) => TournOpView::UpdateTournSetting(s@),
            TournOp::GiveBye(p) => TournOpView::GiveBye(p@),
            TournOp::CreateRound(ps) => TournOpView::CreateRound(idents_view(ps@)),
            TournOp::PairRound() => TournOpView::PairRound,
            TournOp::TimeExtension(r, secs) => TournOpView::TimeExtension(r@, *secs),
        }
    }
}

impl Clone for PlayerIdentifier {
    fn clone(&self) -> (r: Self)
        ensures
            r@ == self@,
    {
        match self {
            PlayerIdentifier::Id(id) => PlayerIdentifier::Id(*id),
            PlayerIdentifier::Name(n) => PlayerIdentifier::Name(n.clone()),
        }
    }
}

impl Clone for RoundIdentifier {
    fn clone(&self) -> (r: Self)
        ensures
            r@ == self@,
    {
        match self {
            RoundIdentifier::Id(id) => RoundIdentifier::Id(*id),
            RoundIdentifier::Number(n) => RoundIdentifier::Number(*n),
        }
    }
}

impl Clone for TournOp {
    fn clone(&self) -> (r: Self)
        ensures
            r@ == self@,
    {
        match self {
            TournOp::UpdateReg(b) => TournOp::UpdateReg(*b),
            TournOp::Start() => TournOp::Start(),
            TournOp::Freeze() => TournOp::Freeze(),
            TournOp::Thaw() => TournOp::Thaw(),
            TournOp::End() => TournOp::End(),
            TournOp::Cancel() => TournOp::Cancel(),
            TournOp::CheckIn(p) => TournOp::CheckIn(p.clone()),
            TournOp::RegisterPlayer(n) => TournOp::RegisterPlayer(n.clone()),
            TournOp::RecordResult(r, res) => TournOp::RecordResult(r.clone(), *res),
            TournOp::ConfirmResult(p) => TournOp::ConfirmResult(p.clone()),
            TournOp::DropPlayer(p) => TournOp::DropPlayer(p.clone()),
            TournOp::AdminDropPlayer(p) => TournOp::AdminDropPlayer(p.clone()),
            TournOp::AddDeck(p, n, d) => TournOp::AddDeck(p.clone(), n.clone(), d.clone()),
            TournOp::RemoveDeck(p, n) => TournOp::RemoveDeck(p.clone(), n.clone()),
            TournOp::SetGamerTag(p, n) => TournOp::SetGamerTag(p.clone(), n.clone()),
            TournOp::ReadyPlayer(p) => TournOp::ReadyPlayer(p.clone()),
            TournOp::UnReadyPlayer(p) => TournOp::UnReadyPlayer(p.clone()),
            TournOp::UpdateTournSetting(s) => TournOp::UpdateTournSetting(s.clone()),
            TournOp::GiveBye(p) => TournOp::GiveBye(p.clone()),
            TournOp::CreateRound(ps) => {
                let mut out: Vec<PlayerIdentifier> = Vec::new();
                let mut i: usize = 0;
                while i < ps.len()
                    invariant
                        i <= ps@.len(),
                        idents_view(out@) == idents_view(ps@).take(i as int),
                    decreases ps@.len() - i,
                {
                    let ghost prev = out@;
                    let c = ps[i].clone();
                    let ghost cv = c@;
                    out.push(c);
                    proof {
                        assert(idents_view(prev).len() == prev.len());
                        assert(idents_view(ps@).take(i as int).len() == i as int);
                        assert(prev.len() == i as int);
                        assert(out@ == prev.push(c));
                        assert forall|j: int| 0 <= j < i as int + 1 implies idents_view(out@)[j]
                            == idents_view(ps@).take(i as int + 1)[j] by {
                            if j < i as int {
                                assert(out@[j] == prev[j]);
                                assert(idents_view(prev)[j] == idents_view(ps@)[j]);
                            } else {
                                assert(out@[j] == c);
                                assert(cv == ps@[i as int]@);
                            }
                        }
                        assert(idents_view(out@) =~= idents_view(ps@).take(i as int + 1));
                    }
                    i += 1;
                }
                proof {
                    let m = idents_view(ps@);
                    assert(m.take(m.len() as int) =~= m);
                }
                TournOp::CreateRound(out)
            },
            TournOp::PairRound() => TournOp::PairRound(),
            TournOp::TimeExtension(r, secs) => TournOp::TimeExtension(r.clone(), *secs),
        }
    }
}

/// An operation as it sits in a log: the operation, its own id, and the
/// sequence number it holds in that log.
#[derive(Debug)]
pub struct FullOp {
    pub id: OpId,
    pub seq: u64,
    pub op: TournOp,
}

/// The observable content of a `FullOp`.
pub struct FullOpView {
    pub id: u128,
    pub seq: u64,
    pub op: TournOpView,
}

impl View for FullOp {
    type V = FullOpView;

    open spec fn view(&self) -> FullOpView {
        FullOpView { id: self.id.0, seq: self.seq, op: self.op@ }
    }
}

impl DeepView for FullOp {
    type V = FullOpView;

    open spec fn deep_view(&self) -> FullOpView {
        self@
    }
}

impl Clone for FullOp {
    fn clone(&self) -> (r: Self)
        ensures
            r@ == self@,
    {
        FullOp { id: self.id, seq: self.seq, op: self.op.clone() }
    }
}

/// What a successful operation reports back, so the log can attribute the
/// outcome without re-deriving it.
#[derive(Debug)]
pub enum OpData {
    /// Nothing beyond success.
    Nothing,
    /// The id of the newly registered player.
    RegisterPlayer(PlayerIdentifier),
    /// The confirmed round's resulting status.
    ConfirmResult(RoundStatus),
    /// The id of the bye round.
    GiveBye(RoundIdentifier),
    /// The id of the created round.
    CreateRound(RoundIdentifier),
    /// The ids of the rounds a pairing pass created.
    Pair(Vec<RoundIdentifier>),
}

/// The observable content of an `OpData`.
pub enum OpDataView {
    Nothing,
    RegisterPlayer(PlayerIdentView),
    ConfirmResult(RoundStatus),
    GiveBye(RoundIdentView),
    CreateRound(RoundIdentView),
    Pair(Seq<RoundIdentView>),
}

impl View for OpData {
    type V = OpDataView;

    open spec fn view(&self) -> OpDataView {
        match self {
            OpData::Nothing => OpDataView::Nothing,
            OpData::RegisterPlayer(p) => OpDataView::RegisterPlayer(p@),
            OpData::ConfirmResult(s) => OpDataView::ConfirmResult(*s),
            OpData::GiveBye(r) => OpDataView::GiveBye(r@),
            OpData::CreateRound(r) => OpDataView::CreateRound(r@),
            OpData::Pair(rs) => OpDataView::Pair(round_idents_view(rs@)),
        }
    }
}

/// What applying an operation returns: an outcome payload or the error that
/// rejected it.
pub type OpResult = Result<OpData, TournamentError>;

/// The view of an `OpResult`, for stating contracts.
pub open spec fn op_result_view(r: OpResult) -> Result<OpDataView, TournamentError> {
    match r {
        Ok(d) => Ok(d@),
        Err(e) => Err(e),
    }
}

} // verus!
