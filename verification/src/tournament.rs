//! The tournament aggregate: every mutation enters through `apply_op`, which
//! dispatches one operation against the registries, the pairing strategy and
//! the settings, enforcing the lifecycle before touching anything. Each
//! mutating method is a pure function of the old state and the operation, so
//! replaying a log reproduces a tournament exactly.

use vstd::prelude::*;

use crate::error::TournamentError;
use crate::fluid_pairings::{spec_fluid_groups, FluidPairings, FluidPairingsView};
use crate::identifiers::{
    fresh_id_bits, PlayerIdentView, PlayerIdentifier, RoundId, RoundIdentView, RoundIdentifier,
    TournamentId,
};
use crate::operations::{
    idents_view, op_result_view, round_idents_view, FullOp, FullOpView, OpData, OpDataView,
    OpResult, TournOp, TournOpView,
};
use crate::player::{PlayerStatus, PlayerView};
use crate::player_registry::{
    reg_has_id, reg_has_name, spec_reg_add_deck, spec_reg_remove_deck, spec_resolve,
    spec_set_game_name, spec_set_status, PlayerRegistry,
};
use crate::round::{RoundResult, RoundStatus, RoundView};
use crate::round_registry::{
    rr_has_id, spec_distinct, spec_new_round_view, spec_resolve_round, spec_rr_bye,
    spec_rr_confirm, spec_rr_create_with, spec_rr_extend, spec_rr_record, RoundRegistry,
    RoundRegistryView,
};
use crate::scoring::Standings;
use crate::settings::{
    FluidPairingsSetting, PairingSetting, ScoringSetting, StandardScoringSetting,
    SwissPairingsSetting, TournamentSetting, TournamentSettingView,
};
use crate::standard_scoring::{spec_standings, StandardScore, StandardScoring};
use crate::swiss_pairings::{spec_eligible, spec_swiss_groups, SwissPairings, SwissPairingsView};

verus! {

/// The two pairing strategies a tournament can be created with.
#[derive(Debug, Clone, Copy, PartialEq, Eq, Structural)]
pub enum TournamentPreset {
    Swiss,
    Fluid,
}

/// The scoring strategy in use; a closed set of variants.
#[derive(Debug, Clone, Copy, PartialEq, Eq, Structural)]
pub enum ScoringSystem {
    Standard(StandardScoring),
}

/// The pairing strategy in use; a closed set of variants.
#[derive(Debug)]
pub enum PairingSystem {
    Swiss(SwissPairings),
    Fluid(FluidPairings),
}

/// The observable content of a `PairingSystem`.
pub enum PairingSystemView {
    Swiss(SwissPairingsView),
    Fluid(FluidPairingsView),
}

impl View for PairingSystem {
    type V = PairingSystemView;

    open spec fn view(&self) -> PairingSystemView {
        match self {
            PairingSystem::Swiss(s) => PairingSystemView::Swiss(s@),
            PairingSystem::Fluid(f) => PairingSystemView::Fluid(f@),
        }
    }
}

/// Where a tournament stands in its life: `Planned` before play,
/// `Started` during, `Frozen` as a pause, and the two terminal ends.
#[derive(Debug, Clone, Copy, PartialEq, Eq, Structural)]
pub enum TournamentStatus {
    Planned,
    Started,
    Frozen,
    Ended,
    Cancelled,
}

/// One tournament: identity, settings, the two registries, and the chosen
/// pairing and scoring strategies.
#[derive(Debug)]
pub struct Tournament {
    pub id: TournamentId,
    pub name: String,
    pub use_table_number: bool,
    pub format: String,
    pub game_size: u8,
    pub min_deck_count: u8,
    pub max_deck_count: u8,
    pub player_reg: PlayerRegistry,
    pub round_reg: RoundRegistry,
    pub pairing_sys: PairingSystem,
    pub scoring_sys: ScoringSystem,
    pub reg_open: bool,
    pub require_check_in: bool,
    pub require_deck_reg: bool,
    pub status: TournamentStatus,
}

/// The observable content of a `Tournament`: the whole state the operation
/// log replays to.
pub struct TournamentView {
    pub id: u128,
    pub name: Seq<char>,
    pub use_table_number: bool,
    pub format: Seq<char>,
    pub game_size: u8,
    pub min_deck_count: u8,
    pub max_deck_count: u8,
    pub player_reg: Seq<PlayerView>,
    pub round_reg: RoundRegistryView,
    pub pairing_sys: PairingSystemView,
    pub scoring_sys: ScoringSystem,
    pub reg_open: bool,
    pub require_check_in: bool,
    pub require_deck_reg: bool,
    pub status: TournamentStatus,
}

impl View for Tournament {
    type V = TournamentView;

    open spec fn view(&self) -> TournamentView {
        TournamentView {
            id: self.id.0,
            name: self.name@,
            use_table_number: self.use_table_number,
            format: self.format@,
            game_size: self.game_size,
            min_deck_count: self.min_deck_count,
            max_deck_count: self.max_deck_count,
            player_reg: self.player_reg@,
            round_reg: self.round_reg@,
            pairing_sys: self.pairing_sys@,
            scoring_sys: self.scoring_sys,
            reg_open: self.reg_open,
            require_check_in: self.require_check_in,
            require_deck_reg: self.require_deck_reg,
            status: self.status,
        }
    }
}

impl TournamentView {
    /// The aggregate invariant: both registries and the pairing queues are
    /// well-formed.
    pub open spec fn wf(&self) -> bool {
        &&& crate::player_registry::reg_wf(self.player_reg)
        &&& crate::round_registry::rounds_wf(self.round_reg.rounds)
        &&& match self.pairing_sys {
            PairingSystemView::Swiss(s) => crate::round::players_unique(s.ready),
            PairingSystemView::Fluid(f) => crate::round::players_unique(f.queue),
        }
    }
}

/// The pairing engine a preset starts with.
pub fn pairing_system_factory(preset: &TournamentPreset, game_size: u8) -> (r: PairingSystem)
    ensures
        match preset {
            TournamentPreset::Swiss => r@ == PairingSystemView::Swiss(
                SwissPairingsView {
                    match_size: game_size,
                    do_check_ins: false,
                    ready: Seq::<crate::identifiers::PlayerId>::empty(),
                },
            ),
            TournamentPreset::Fluid => r@ == PairingSystemView::Fluid(
                FluidPairingsView {
                    match_size: game_size,
                    queue: Seq::<crate::identifiers::PlayerId>::empty(),
                },
            ),
        },
{
    match preset {
        TournamentPreset::Swiss => PairingSystem::Swiss(SwissPairings::new(game_size)),
        TournamentPreset::Fluid => PairingSystem::Fluid(FluidPairings::new(game_size)),
    }
}

/// The scoring engine a preset starts with; every preset scores standard.
pub fn scoring_system_factory(preset: &TournamentPreset) -> (r: ScoringSystem)
    ensures
        r == ScoringSystem::Standard(StandardScoring { win_points: 2, draw_points: 1 }),
{
    match preset {
        TournamentPreset::Swiss => ScoringSystem::Standard(StandardScoring::new()),
        TournamentPreset::Fluid => ScoringSystem::Standard(StandardScoring::new()),
    }
}

/// The pristine tournament a creation yields, as a function of its inputs.
pub open spec fn spec_fresh_tournament(
    id_bits: u128,
    name: Seq<char>,
    preset: TournamentPreset,
    format: Seq<char>,
) -> TournamentView {
    TournamentView {
        id: id_bits,
        name,
        use_table_number: true,
        format,
        game_size: 2,
        min_deck_count: 1,
        max_deck_count: 2,
        player_reg: Seq::<PlayerView>::empty(),
        round_reg: RoundRegistryView {
            rounds: Seq::<RoundView>::empty(),
            starting_table: 0,
            length_secs: 3000,
        },
        pairing_sys: match preset {
            TournamentPreset::Swiss => PairingSystemView::Swiss(
                SwissPairingsView {
                    match_size: 2,
                    do_check_ins: false,
                    ready: Seq::<crate::identifiers::PlayerId>::empty(),
                },
            ),
            TournamentPreset::Fluid => PairingSystemView::Fluid(
                FluidPairingsView {
                    match_size: 2,
                    queue: Seq::<crate::identifiers::PlayerId>::empty(),
                },
            ),
        },
        scoring_sys: ScoringSystem::Standard(StandardScoring { win_points: 2, draw_points: 1 }),
        reg_open: true,
        require_check_in: false,
        require_deck_reg: false,
        status: TournamentStatus::Planned,
    }
}

impl Tournament {
    /// The aggregate invariant, stated over the view.
    pub open spec fn wf(&self) -> bool {
        self@.wf()
    }

    /// A new tournament under the given id, with the preset's strategies and
    /// the default settings.
    pub fn from_preset_with_id(
        id_bits: u128,
        name: String,
        preset: TournamentPreset,
        format: String,
    ) -> (r: Tournament)
        ensures
            r@ == spec_fresh_tournament(id_bits, name@, preset, format@),
            r.wf(),
    {
        Tournament {
            id: TournamentId(id_bits),
            name,
            use_table_number: true,
            format,
            game_size: 2,
            min_deck_count: 1,
            max_deck_count: 2,
            player_reg: PlayerRegistry::new(),
            round_reg: RoundRegistry::new(0, 3000),
            pairing_sys: pairing_system_factory(&preset, 2),
            scoring_sys: scoring_system_factory(&preset),
            reg_open: true,
            require_check_in: false,
            require_deck_reg: false,
            status: TournamentStatus::Planned,
        }
    }

    /// A new tournament under a freshly drawn random id.
    pub fn from_preset(name: String, preset: TournamentPreset, format: String) -> (r: Tournament)
        ensures
            r@ == spec_fresh_tournament(r@.id, name@, preset, format@),
            r.wf(),
    {
        let bits = fresh_id_bits();
        Tournament::from_preset_with_id(bits, name, preset, format)
    }

    /// Whether the tournament has not yet started.
    pub fn is_planned(&self) -> (r: bool)
        ensures
            r == (self@.status == TournamentStatus::Planned),
    {
        match self.status {
            TournamentStatus::Planned => true,
            _ => false,
        }
    }

    /// Whether the tournament is paused.
    pub fn is_frozen(&self) -> (r: bool)
        ensures
            r == (self@.status == TournamentStatus::Frozen),
    {
        match self.status {
            TournamentStatus::Frozen => true,
            _ => false,
        }
    }

    /// Whether the tournament is running.
    pub fn is_active(&self) -> (r: bool)
        ensures
            r == (self@.status == TournamentStatus::Started),
    {
        match self.status {
            TournamentStatus::Started => true,
            _ => false,
        }
    }

    /// Whether the tournament has reached a terminal state.
    pub fn is_dead(&self) -> (r: bool)
        ensures
            r == (self@.status == TournamentStatus::Ended || self@.status
                == TournamentStatus::Cancelled),
    {
        match self.status {
            TournamentStatus::Ended | TournamentStatus::Cancelled => true,
            _ => false,
        }
    }
}


/// What one applied operation yields: the next state and the outcome.
pub type TournStep = (TournamentView, Result<OpDataView, TournamentError>);

/// Opens or closes registration; always succeeds.
pub open spec fn spec_update_reg(t: TournamentView, b: bool) -> TournStep {
    (TournamentView { reg_open: b, ..t }, Ok(OpDataView::Nothing))
}

/// Planned -> Started; anything else is `IncorrectStatus`.
pub open spec fn spec_start(t: TournamentView) -> TournStep {
    if t.status == TournamentStatus::Planned {
        (TournamentView { status: TournamentStatus::Started, ..t }, Ok(OpDataView::Nothing))
    } else {
        (t, Err(TournamentError::IncorrectStatus))
    }
}

/// Started -> Frozen, closing registration.
pub open spec fn spec_freeze(t: TournamentView) -> TournStep {
    if t.status == TournamentStatus::Started {
        (
            TournamentView { status: TournamentStatus::Frozen, reg_open: false, ..t },
            Ok(OpDataView::Nothing),
        )
    } else {
        (t, Err(TournamentError::IncorrectStatus))
    }
}

/// Frozen -> Started.
pub open spec fn spec_thaw(t: TournamentView) -> TournStep {
    if t.status == TournamentStatus::Frozen {
        (TournamentView { status: TournamentStatus::Started, ..t }, Ok(OpDataView::Nothing))
    } else {
        (t, Err(TournamentError::IncorrectStatus))
    }
}

/// Started -> Ended, closing registration; terminal.
pub open spec fn spec_end(t: TournamentView) -> TournStep {
    if t.status == TournamentStatus::Started {
        (
            TournamentView { status: TournamentStatus::Ended, reg_open: false, ..t },
            Ok(OpDataView::Nothing),
        )
    } else {
        (t, Err(TournamentError::IncorrectStatus))
    }
}

/// Started -> Cancelled, closing registration; terminal.
pub open spec fn spec_cancel(t: TournamentView) -> TournStep {
    if t.status == TournamentStatus::Started {
        (
            TournamentView { status: TournamentStatus::Cancelled, reg_open: false, ..t },
            Ok(OpDataView::Nothing),
        )
    } else {
        (t, Err(TournamentError::IncorrectStatus))
    }
}

/// Marks the named player checked in; dropped players cannot return.
pub open spec fn spec_check_in(t: TournamentView, ident: PlayerIdentView) -> TournStep {
    if t.status != TournamentStatus::Started {
        (t, Err(TournamentError::IncorrectStatus))
    } else {
        match spec_resolve(t.player_reg, ident) {
            None => (t, Err(TournamentError::PlayerLookup)),
            Some(i) => if t.player_reg[i].status == PlayerStatus::Dropped {
                (t, Err(TournamentError::PlayerLookup))
            } else {
                (
                    TournamentView {
                        player_reg: spec_set_status(t.player_reg, ident, PlayerStatus::CheckedIn).0,
                        ..t
                    },
                    Ok(OpDataView::Nothing),
                )
            },
        }
    }
}

/// Registers a player under the operation's own id bits.
pub open spec fn spec_register_player(t: TournamentView, name: Seq<char>, opid: u128) -> TournStep {
    if t.status != TournamentStatus::Started {
        (t, Err(TournamentError::IncorrectStatus))
    } else if !t.reg_open {
        (t, Err(TournamentError::RegClosed))
    } else if reg_has_id(t.player_reg, opid) || reg_has_name(t.player_reg, name) {
        (t, Err(TournamentError::PlayerLookup))
    } else {
        (
            TournamentView {
                player_reg: t.player_reg.push(
                    PlayerView {
                        id: opid,
                        name,
                        game_name: None,
                        status: PlayerStatus::Registered,
                        decks: Seq::empty(),
                    },
                ),
                ..t
            },
            Ok(OpDataView::RegisterPlayer(PlayerIdentView::Id(opid))),
        )
    }
}

/// Records a result against the named round.
pub open spec fn spec_record_result(
    t: TournamentView,
    ident: RoundIdentView,
    result: RoundResult,
) -> TournStep {
    let (rs, res) = spec_rr_record(t.round_reg.rounds, ident, result);
    match res {
        Ok(_) => (
            TournamentView {
                round_reg: RoundRegistryView { rounds: rs, ..t.round_reg },
                ..t
            },
            Ok(OpDataView::Nothing),
        ),
        Err(e) => (t, Err(e)),
    }
}

/// The named player confirms their active round.
pub open spec fn spec_confirm_result(t: TournamentView, ident: PlayerIdentView) -> TournStep {
    if t.status != TournamentStatus::Started {
        (t, Err(TournamentError::IncorrectStatus))
    } else {
        match spec_resolve(t.player_reg, ident) {
            None => (t, Err(TournamentError::PlayerLookup)),
            Some(i) => {
                let p = crate::identifiers::PlayerId(t.player_reg[i].id);
                let (rs, res) = spec_rr_confirm(t.round_reg.rounds, p);
                match res {
                    Ok(st) => (
                        TournamentView {
                            round_reg: RoundRegistryView { rounds: rs, ..t.round_reg },
                            ..t
                        },
                        Ok(OpDataView::ConfirmResult(st)),
                    ),
                    Err(e) => (t, Err(e)),
                }
            },
        }
    }
}

/// The pairing queues after a player withdraws.
pub open spec fn spec_pairing_unready(
    ps: PairingSystemView,
    p: crate::identifiers::PlayerId,
) -> PairingSystemView {
    match ps {
        PairingSystemView::Swiss(s) => PairingSystemView::Swiss(
            SwissPairingsView { ready: crate::round::spec_set_remove(s.ready, p), ..s },
        ),
        PairingSystemView::Fluid(f) => PairingSystemView::Fluid(
            FluidPairingsView { queue: crate::round::spec_set_remove(f.queue, p), ..f },
        ),
    }
}

/// Drops the named player: kept in the roster with status `Dropped`, and
/// taken out of the pairing queue.
pub open spec fn spec_drop_player(t: TournamentView, ident: PlayerIdentView) -> TournStep {
    match spec_resolve(t.player_reg, ident) {
        None => (t, Err(TournamentError::PlayerLookup)),
        Some(i) => {
            let p = crate::identifiers::PlayerId(t.player_reg[i].id);
            (
                TournamentView {
                    player_reg: spec_set_status(t.player_reg, ident, PlayerStatus::Dropped).0,
                    pairing_sys: spec_pairing_unready(t.pairing_sys, p),
                    ..t
                },
                Ok(OpDataView::Nothing),
            )
        },
    }
}

/// Adds a deck for the named player while registration is open.
pub open spec fn spec_player_add_deck(
    t: TournamentView,
    ident: PlayerIdentView,
    name: Seq<char>,
    deck: mtgjson::DeckSet,
) -> TournStep {
    if t.status != TournamentStatus::Started {
        (t, Err(TournamentError::IncorrectStatus))
    } else if !t.reg_open {
        (t, Err(TournamentError::RegClosed))
    } else {
        let (ps, res) = spec_reg_add_deck(t.player_reg, ident, name, deck);
        match res {
            Ok(_) => (TournamentView { player_reg: ps, ..t }, Ok(OpDataView::Nothing)),
            Err(e) => (t, Err(e)),
        }
    }
}

/// Removes the named player's deck of the given name.
pub open spec fn spec_remove_player_deck(
    t: TournamentView,
    ident: PlayerIdentView,
    name: Seq<char>,
) -> TournStep {
    let (ps, res) = spec_reg_remove_deck(t.player_reg, ident, name);
    match res {
        Ok(_) => (TournamentView { player_reg: ps, ..t }, Ok(OpDataView::Nothing)),
        Err(e) => (t, Err(e)),
    }
}

/// Replaces the named player's in-game name.
pub open spec fn spec_player_set_game_name(
    t: TournamentView,
    ident: PlayerIdentView,
    name: Seq<char>,
) -> TournStep {
    let (ps, res) = spec_set_game_name(t.player_reg, ident, name);
    match res {
        Ok(_) => (TournamentView { player_reg: ps, ..t }, Ok(OpDataView::Nothing)),
        Err(e) => (t, Err(e)),
    }
}

/// Grants the named round extra time.
pub open spec fn spec_time_extension(
    t: TournamentView,
    ident: RoundIdentView,
    secs: u64,
) -> TournStep {
    let (rs, res) = spec_rr_extend(t.round_reg.rounds, ident, secs);
    match res {
        Ok(_) => (
            TournamentView {
                round_reg: RoundRegistryView { rounds: rs, ..t.round_reg },
                ..t
            },
            Ok(OpDataView::Nothing),
        ),
        Err(e) => (t, Err(e)),
    }
}

impl Tournament {
    /// Opens or closes registration.
    pub(crate) fn update_reg(&mut self, b: bool) -> (r: OpResult)
        requires
            old(self).wf(),
        ensures
            final(self).wf(),
            (final(self)@, op_result_view(r)) == spec_update_reg(old(self)@, b),
    {
        self.reg_open = b;
        Ok(OpData::Nothing)
    }

    /// Starts a planned tournament.
    pub(crate) fn start(&mut self) -> (r: OpResult)
        requires
            old(self).wf(),
        ensures
            final(self).wf(),
            (final(self)@, op_result_view(r)) == spec_start(old(self)@),
    {
        if !self.is_planned() {
            Err(TournamentError::IncorrectStatus)
        } else {
            self.status = TournamentStatus::Started;
            Ok(OpData::Nothing)
        }
    }

    /// Freezes a running tournament.
    pub(crate) fn freeze(&mut self) -> (r: OpResult)
        requires
            old(self).wf(),
        ensures
            final(self).wf(),
            (final(self)@, op_result_view(r)) == spec_freeze(old(self)@),
    {
        if !self.is_active() {
            Err(TournamentError::IncorrectStatus)
        } else {
            self.reg_open = false;
            self.status = TournamentStatus::Frozen;
            Ok(OpData::Nothing)
        }
    }

    /// Resumes a frozen tournament.
    pub(crate) fn thaw(&mut self) -> (r: OpResult)
        requires
            old(self).wf(),
        ensures
            final(self).wf(),
            (final(self)@, op_result_view(r)) == spec_thaw(old(self)@),
    {
        if !self.is_frozen() {
            Err(TournamentError::IncorrectStatus)
        } else {
            self.status = TournamentStatus::Started;
            Ok(OpData::Nothing)
        }
    }

    /// Ends a running tournament; terminal.
    pub(crate) fn end(&mut self) -> (r: OpResult)
        requires
            old(self).wf(),
        ensures
            final(self).wf(),
            (final(self)@, op_result_view(r)) == spec_end(old(self)@),
    {
        if !self.is_active() {
            Err(TournamentError::IncorrectStatus)
        } else {
            self.reg_open = false;
            self.status = TournamentStatus::Ended;
            Ok(OpData::Nothing)
        }
    }

    /// Cancels a running tournament; terminal.
    pub(crate) fn cancel(&mut self) -> (r: OpResult)
        requires
            old(self).wf(),
        ensures
            final(self).wf(),
            (final(self)@, op_result_view(r)) == spec_cancel(old(self)@),
    {
        if !self.is_active() {
            Err(TournamentError::IncorrectStatus)
        } else {
            self.reg_open = false;
            self.status = TournamentStatus::Cancelled;
            Ok(OpData::Nothing)
        }
    }

    /// Checks the named player in.
    pub(crate) fn check_in(&mut self, ident: &PlayerIdentifier) -> (r: OpResult)
        requires
            old(self).wf(),
        ensures
            final(self).wf(),
            (final(self)@, op_result_view(r)) == spec_check_in(old(self)@, ident@),
    {
        if !self.is_active() {
            return Err(TournamentError::IncorrectStatus);
        }
        let dropped = match self.player_reg.get_player(ident) {
            None => {
                return Err(TournamentError::PlayerLookup);
            },
            Some(p) => !p.can_play(),
        };
        if dropped {
            return Err(TournamentError::PlayerLookup);
        }
        match self.player_reg.set_status(ident, PlayerStatus::CheckedIn) {
            Ok(_) => Ok(OpData::Nothing),
            Err(e) => Err(e),
        }
    }

    /// Registers a player under the operation id's bits.
    pub(crate) fn register_player(&mut self, name: String, opid: u128) -> (r: OpResult)
        requires
            old(self).wf(),
        ensures
            final(self).wf(),
            (final(self)@, op_result_view(r)) == spec_register_player(old(self)@, name@, opid),
    {
        if !self.is_active() {
            return Err(TournamentError::IncorrectStatus);
        }
        if !self.reg_open {
            return Err(TournamentError::RegClosed);
        }
        match self.player_reg.add_player(crate::identifiers::PlayerId(opid), name) {
            Ok(id) => Ok(OpData::RegisterPlayer(PlayerIdentifier::Id(id))),
            Err(e) => Err(e),
        }
    }

    /// Records a result against the named round.
    pub(crate) fn record_result(&mut self, ident: &RoundIdentifier, result: RoundResult) -> (r:
        OpResult)
        requires
            old(self).wf(),
        ensures
            final(self).wf(),
            (final(self)@, op_result_view(r)) == spec_record_result(old(self)@, ident@, result),
    {
        match self.round_reg.record_result(ident, result) {
            Ok(()) => Ok(OpData::Nothing),
            Err(e) => Err(e),
        }
    }

    /// The named player confirms their active round.
    pub(crate) fn confirm_round(&mut self, ident: &PlayerIdentifier) -> (r: OpResult)
        requires
            old(self).wf(),
        ensures
            final(self).wf(),
            (final(self)@, op_result_view(r)) == spec_confirm_result(old(self)@, ident@),
    {
        if !self.is_active() {
            return Err(TournamentError::IncorrectStatus);
        }
        let id = match self.player_reg.get_player_id(ident) {
            None => {
                return Err(TournamentError::PlayerLookup);
            },
            Some(id) => id,
        };
        match self.round_reg.confirm_player(id) {
            Ok(st) => Ok(OpData::ConfirmResult(st)),
            Err(e) => Err(e),
        }
    }

    /// Drops the named player, keeping them in the historical roster.
    pub(crate) fn drop_player(&mut self, ident: &PlayerIdentifier) -> (r: OpResult)
        requires
            old(self).wf(),
        ensures
            final(self).wf(),
            (final(self)@, op_result_view(r)) == spec_drop_player(old(self)@, ident@),
    {
        let id = match self.player_reg.set_status(ident, PlayerStatus::Dropped) {
            Err(e) => {
                return Err(e);
            },
            Ok(id) => id,
        };
        match &mut self.pairing_sys {
            PairingSystem::Swiss(sys) => sys.unready_player(id),
            PairingSystem::Fluid(sys) => sys.unready_player(id),
        }
        Ok(OpData::Nothing)
    }

    /// An organizer drops the named player; same effect as a self-drop.
    pub(crate) fn admin_drop_player(&mut self, ident: &PlayerIdentifier) -> (r: OpResult)
        requires
            old(self).wf(),
        ensures
            final(self).wf(),
            (final(self)@, op_result_view(r)) == spec_drop_player(old(self)@, ident@),
    {
        self.drop_player(ident)
    }

    /// Adds a deck for the named player.
    pub(crate) fn player_add_deck(
        &mut self,
        ident: &PlayerIdentifier,
        name: String,
        deck: mtgjson::DeckSet,
    ) -> (r: OpResult)
        requires
            old(self).wf(),
        ensures
            final(self).wf(),
            (final(self)@, op_result_view(r)) == spec_player_add_deck(
                old(self)@,
                ident@,
                name@,
                deck,
            ),
    {
        if !self.is_active() {
            return Err(TournamentError::IncorrectStatus);
        }
        if !self.reg_open {
            return Err(TournamentError::RegClosed);
        }
        match self.player_reg.add_deck(ident, name, deck) {
            Ok(_) => Ok(OpData::Nothing),
            Err(e) => Err(e),
        }
    }

    /// Removes the named player's deck of the given name.
    pub(crate) fn remove_player_deck(&mut self, ident: &PlayerIdentifier, name: &String) -> (r:
        OpResult)
        requires
            old(self).wf(),
        ensures
            final(self).wf(),
            (final(self)@, op_result_view(r)) == spec_remove_player_deck(
                old(self)@,
                ident@,
                name@,
            ),
    {
        match self.player_reg.remove_deck(ident, name) {
            Ok(_) => Ok(OpData::Nothing),
            Err(e) => Err(e),
        }
    }

    /// Replaces the named player's in-game name.
    pub(crate) fn player_set_game_name(&mut self, ident: &PlayerIdentifier, name: String) -> (r:
        OpResult)
        requires
            old(self).wf(),
        ensures
            final(self).wf(),
            (final(self)@, op_result_view(r)) == spec_player_set_game_name(
                old(self)@,
                ident@,
                name@,
            ),
    {
        match self.player_reg.set_game_name(ident, name) {
            Ok(_) => Ok(OpData::Nothing),
            Err(e) => Err(e),
        }
    }

    /// Grants the named round extra time.
    pub(crate) fn give_time_extension(&mut self, ident: &RoundIdentifier, secs: u64) -> (r:
        OpResult)
        requires
            old(self).wf(),
        ensures
            final(self).wf(),
            (final(self)@, op_result_view(r)) == spec_time_extension(old(self)@, ident@, secs),
    {
        match self.round_reg.add_extension(ident, secs) {
            Ok(()) => Ok(OpData::Nothing),
            Err(e) => Err(e),
        }
    }
}


/// The state after a tournament-wide setting turns, with the outcome: a
/// strategy-specific setting must target the configured strategy.
pub open spec fn spec_update_setting(t: TournamentView, sv: TournamentSettingView) -> TournStep {
    match sv {
        TournamentSettingView::Format(f) => (
            TournamentView { format: f, ..t },
            Ok(OpDataView::Nothing),
        ),
        TournamentSettingView::StartingTableNumber(n) => (
            TournamentView {
                round_reg: RoundRegistryView { starting_table: n, ..t.round_reg },
                ..t
            },
            Ok(OpDataView::Nothing),
        ),
        TournamentSettingView::UseTableNumbers(b) => (
            TournamentView { use_table_number: b, ..t },
            Ok(OpDataView::Nothing),
        ),
        TournamentSettingView::MinDeckCount(c) => (
            TournamentView { min_deck_count: c, ..t },
            Ok(OpDataView::Nothing),
        ),
        TournamentSettingView::MaxDeckCount(c) => (
            TournamentView { max_deck_count: c, ..t },
            Ok(OpDataView::Nothing),
        ),
        TournamentSettingView::RequireCheckIn(b) => (
            TournamentView { require_check_in: b, ..t },
            Ok(OpDataView::Nothing),
        ),
        TournamentSettingView::RequireDeckReg(b) => (
            TournamentView { require_deck_reg: b, ..t },
            Ok(OpDataView::Nothing),
        ),
        TournamentSettingView::PairingSetting(ps) => match (ps, t.pairing_sys) {
            (PairingSetting::Swiss(sw), PairingSystemView::Swiss(sys)) => (
                TournamentView {
                    pairing_sys: PairingSystemView::Swiss(
                        match sw {
                            SwissPairingsSetting::MatchSize(n) => SwissPairingsView {
                                match_size: n,
                                ..sys
                            },
                            SwissPairingsSetting::DoCheckIns(b) => SwissPairingsView {
                                do_check_ins: b,
                                ..sys
                            },
                        },
                    ),
                    ..t
                },
                Ok(OpDataView::Nothing),
            ),
            (PairingSetting::Fluid(fl), PairingSystemView::Fluid(sys)) => (
                TournamentView {
                    pairing_sys: PairingSystemView::Fluid(
                        match fl {
                            FluidPairingsSetting::MatchSize(n) => FluidPairingsView {
                                match_size: n,
                                ..sys
                            },
                        },
                    ),
                    ..t
                },
                Ok(OpDataView::Nothing),
            ),
            _ => (t, Err(TournamentError::IncompatiblePairingSystem)),
        },
        TournamentSettingView::ScoringSetting(ss) => match (ss, t.scoring_sys) {
            (ScoringSetting::Standard(st), ScoringSystem::Standard(sys)) => (
                TournamentView {
                    scoring_sys: ScoringSystem::Standard(
                        match st {
                            StandardScoringSetting::MatchWinPoints(n) => StandardScoring {
                                win_points: n,
                                ..sys
                            },
                            StandardScoringSetting::MatchDrawPoints(n) => StandardScoring {
                                draw_points: n,
                                ..sys
                            },
                        },
                    ),
                    ..t
                },
                Ok(OpDataView::Nothing),
            ),
        },
    }
}

/// Withdraws the named player's readiness; never an error beyond lookup.
pub open spec fn spec_unready_player(t: TournamentView, ident: PlayerIdentView) -> TournStep {
    match spec_resolve(t.player_reg, ident) {
        None => (t, Err(TournamentError::PlayerLookup)),
        Some(i) => (
            TournamentView {
                pairing_sys: spec_pairing_unready(
                    t.pairing_sys,
                    crate::identifiers::PlayerId(t.player_reg[i].id),
                ),
                ..t
            },
            Ok(OpDataView::Nothing),
        ),
    }
}

impl Tournament {
    /// Turns a tournament-wide knob.
    pub(crate) fn update_setting(&mut self, setting: TournamentSetting) -> (r: OpResult)
        requires
            old(self).wf(),
        ensures
            final(self).wf(),
            (final(self)@, op_result_view(r)) == spec_update_setting(old(self)@, setting@),
    {
        match setting {
            TournamentSetting::Format(f) => {
                self.format = f;
            },
            TournamentSetting::StartingTableNumber(n) => {
                self.round_reg.starting_table = n;
            },
            TournamentSetting::UseTableNumbers(b) => {
                self.use_table_number = b;
            },
            TournamentSetting::MinDeckCount(c) => {
                self.min_deck_count = c;
            },
            TournamentSetting::MaxDeckCount(c) => {
                self.max_deck_count = c;
            },
            TournamentSetting::RequireCheckIn(b) => {
                self.require_check_in = b;
            },
            TournamentSetting::RequireDeckReg(b) => {
                self.require_deck_reg = b;
            },
            TournamentSetting::PairingSetting(ps) => match ps {
                PairingSetting::Swiss(sw) => {
                    if let PairingSystem::Swiss(sys) = &mut self.pairing_sys {
                        sys.update_setting(sw);
                    } else {
                        return Err(TournamentError::IncompatiblePairingSystem);
                    }
                },
                PairingSetting::Fluid(fl) => {
                    if let PairingSystem::Fluid(sys) = &mut self.pairing_sys {
                        sys.update_setting(fl);
                    } else {
                        return Err(TournamentError::IncompatiblePairingSystem);
                    }
                },
            },
            TournamentSetting::ScoringSetting(ss) => match ss {
                ScoringSetting::Standard(st) => {
                    let ScoringSystem::Standard(sys) = &mut self.scoring_sys;
                    sys.update_setting(st);
                },
            },
        }
        Ok(OpData::Nothing)
    }

    /// Withdraws the named player's readiness.
    pub(crate) fn unready_player(&mut self, ident: &PlayerIdentifier) -> (r: OpResult)
        requires
            old(self).wf(),
        ensures
            final(self).wf(),
            (final(self)@, op_result_view(r)) == spec_unready_player(old(self)@, ident@),
    {
        let id = match self.player_reg.get_player_id(ident) {
            None => {
                return Err(TournamentError::PlayerLookup);
            },
            Some(id) => id,
        };
        match &mut self.pairing_sys {
            PairingSystem::Swiss(sys) => sys.unready_player(id),
            PairingSystem::Fluid(sys) => sys.unready_player(id),
        }
        Ok(OpData::Nothing)
    }

    /// A copy of the player the identifier names.
    pub fn get_player(&self, ident: &PlayerIdentifier) -> (r: Result<
        crate::player::Player,
        TournamentError,
    >)
        requires
            self.wf(),
        ensures
            match r {
                Ok(p) => spec_resolve(self@.player_reg, ident@) is Some && p@
                    == self@.player_reg[spec_resolve(self@.player_reg, ident@).unwrap()],
                Err(e) => spec_resolve(self@.player_reg, ident@) is None && e
                    == TournamentError::PlayerLookup,
            },
    {
        match self.player_reg.get_player(ident) {
            Some(p) => Ok(p.clone()),
            None => Err(TournamentError::PlayerLookup),
        }
    }

    /// A copy of the round the identifier names.
    pub fn get_round(&self, ident: &RoundIdentifier) -> (r: Result<
        crate::round::Round,
        TournamentError,
    >)
        requires
            self.wf(),
        ensures
            match r {
                Ok(rd) => spec_resolve_round(self@.round_reg.rounds, ident@) is Some && rd@
                    == self@.round_reg.rounds[spec_resolve_round(
                    self@.round_reg.rounds,
                    ident@,
                ).unwrap()],
                Err(e) => spec_resolve_round(self@.round_reg.rounds, ident@) is None && e
                    == TournamentError::RoundLookup,
            },
    {
        match self.round_reg.get_round(ident) {
            Some(rd) => Ok(rd.clone()),
            None => Err(TournamentError::RoundLookup),
        }
    }

    /// A copy of the named player's deck of the given name.
    pub fn get_player_deck(&self, ident: &PlayerIdentifier, name: &String) -> (r: Result<
        mtgjson::DeckSet,
        TournamentError,
    >)
        requires
            self.wf(),
        ensures
            match r {
                Ok(d) => {
                    &&& spec_resolve(self@.player_reg, ident@) is Some
                    &&& ({
                        let decks = self@.player_reg[spec_resolve(
                            self@.player_reg,
                            ident@,
                        ).unwrap()].decks;
                        crate::player::has_deck(decks, name@) && d == decks[
                            crate::player::deck_index_of(decks, name@)].1
                    })
                },
                Err(e) => match spec_resolve(self@.player_reg, ident@) {
                    None => e == TournamentError::PlayerLookup,
                    Some(i) => e == TournamentError::DeckLookup && !crate::player::has_deck(
                        self@.player_reg[i].decks,
                        name@,
                    ),
                },
            },
    {
        let p = match self.player_reg.get_player(ident) {
            None => {
                return Err(TournamentError::PlayerLookup);
            },
            Some(p) => p,
        };
        match p.get_deck(name) {
            Some(d) => Ok(d),
            None => Err(TournamentError::DeckLookup),
        }
    }

    /// How many rounds among the first `n` hold the player.
    pub open spec fn spec_rounds_with_upto(
        s: Seq<RoundView>,
        p: crate::identifiers::PlayerId,
        n: int,
    ) -> int
        decreases n,
    {
        if n <= 0 {
            0
        } else {
            Self::spec_rounds_with_upto(s, p, n - 1) + if s[n - 1].players.contains(p) {
                1int
            } else {
                0int
            }
        }
    }

    /// The id of the one round the named player sits in; an error unless
    /// the player sits in exactly one round.
    pub fn get_player_round(&self, ident: &PlayerIdentifier) -> (r: Result<
        RoundId,
        TournamentError,
    >)
        requires
            self.wf(),
        ensures
            r is Ok ==> spec_resolve(self@.player_reg, ident@) is Some
                && Self::spec_rounds_with_upto(
                self@.round_reg.rounds,
                crate::identifiers::PlayerId(
                    self@.player_reg[spec_resolve(self@.player_reg, ident@).unwrap()].id,
                ),
                self@.round_reg.rounds.len() as int,
            ) == 1 && (exists|i: int|
                0 <= i < self@.round_reg.rounds.len() && (
                #[trigger] self@.round_reg.rounds[i]).players.contains(
                    crate::identifiers::PlayerId(
                        self@.player_reg[spec_resolve(self@.player_reg, ident@).unwrap()].id,
                    ),
                ) && r == Ok::<RoundId, TournamentError>(self@.round_reg.rounds[i].id)),
            r is Err ==> (spec_resolve(self@.player_reg, ident@) is None && r == Err::<
                RoundId,
                TournamentError,
            >(TournamentError::PlayerLookup)) || (spec_resolve(self@.player_reg, ident@) is Some
                && r == Err::<RoundId, TournamentError>(TournamentError::RoundLookup)
                && Self::spec_rounds_with_upto(
                self@.round_reg.rounds,
                crate::identifiers::PlayerId(
                    self@.player_reg[spec_resolve(self@.player_reg, ident@).unwrap()].id,
                ),
                self@.round_reg.rounds.len() as int,
            ) != 1),
    {
        let p = match self.player_reg.get_player_id(ident) {
            None => {
                return Err(TournamentError::PlayerLookup);
            },
            Some(id) => id,
        };
        let mut count: u64 = 0;
        let mut found: Option<RoundId> = None;
        let mut i: usize = 0;
        let ghost s = self@.round_reg.rounds;
        while i < self.round_reg.rounds.len()
            invariant
                self.wf(),
                s == self@.round_reg.rounds,
                i <= s.len(),
                count == Self::spec_rounds_with_upto(s, p, i as int),
                count <= i,
                count >= 1 ==> (found is Some && exists|k: int|
                    0 <= k < i && (#[trigger] s[k]).players.contains(p) && found == Some(
                        s[k].id,
                    )),
            decreases s.len() - i,
        {
            if crate::round::vec_contains_player(&self.round_reg.rounds[i].players, p) {
                count = count + 1;
                found = Some(self.round_reg.rounds[i].get_id());
                proof {
                    assert((#[trigger] s[i as int]).players.contains(p) && found == Some(
                        s[i as int].id,
                    ));
                }
            }
            i += 1;
        }
        if count == 1 {
            match found {
                Some(id) => Ok(id),
                None => Err(TournamentError::RoundLookup),
            }
        } else {
            Err(TournamentError::RoundLookup)
        }
    }

    /// Copies of all decks the named player has registered.
    pub fn get_player_decks(&self, ident: &PlayerIdentifier) -> (r: Result<
        Vec<(String, mtgjson::DeckSet)>,
        TournamentError,
    >)
        requires
            self.wf(),
        ensures
            match r {
                Ok(d) => spec_resolve(self@.player_reg, ident@) is Some
                    && crate::player::decks_view(d@) == self@.player_reg[spec_resolve(
                    self@.player_reg,
                    ident@,
                ).unwrap()].decks,
                Err(e) => spec_resolve(self@.player_reg, ident@) is None && e
                    == TournamentError::PlayerLookup,
            },
    {
        match self.get_player(ident) {
            Ok(p) => Ok(p.decks),
            Err(e) => Err(e),
        }
    }

    /// The ranked standings of the tournament.
    pub fn get_standings(&self) -> (r: Standings<StandardScore>)
        ensures
            match self@.scoring_sys {
                ScoringSystem::Standard(sc) => r@ == spec_standings(
                    self@.player_reg,
                    self@.round_reg.rounds,
                    sc.win_points,
                    sc.draw_points,
                ),
            },
    {
        self.scoring_sys.get_standings(&self.player_reg, &self.round_reg)
    }
}

impl ScoringSystem {
    /// The ranked standings under the configured scoring strategy.
    pub fn get_standings(&self, player_reg: &PlayerRegistry, round_reg: &RoundRegistry) -> (r:
        Standings<StandardScore>)
        ensures
            match self {
                ScoringSystem::Standard(sc) => r@ == spec_standings(
                    player_reg@,
                    round_reg@.rounds,
                    sc.win_points,
                    sc.draw_points,
                ),
            },
    {
        match self {
            ScoringSystem::Standard(sc) => sc.get_standings(player_reg, round_reg),
        }
    }
}

impl Clone for crate::player::Player {
    /// A deep copy with the same observable content.
    fn clone(&self) -> (r: Self)
        ensures
            r@ == self@,
    {
        let mut decks: Vec<(String, mtgjson::DeckSet)> = Vec::new();
        let mut i: usize = 0;
        while i < self.decks.len()
            invariant
                i <= self.decks@.len(),
                decks@ == self.decks@.take(i as int),
            decreases self.decks@.len() - i,
        {
            decks.push((self.decks[i].0.clone(), self.decks[i].1.clone()));
            proof {
                assert(decks@ =~= self.decks@.take(i as int + 1));
            }
            i += 1;
        }
        proof {
            assert(self.decks@.take(self.decks@.len() as int) =~= self.decks@);
        }
        let r = crate::player::Player {
            id: self.id,
            name: self.name.clone(),
            game_name: match &self.game_name {
                Some(g) => Some(g.clone()),
                None => None,
            },
            status: self.status,
            decks,
        };
        r
    }
}

impl Clone for crate::round::Round {
    /// A deep copy with the same observable content.
    fn clone(&self) -> (r: Self)
        ensures
            r@ == self@,
    {
        let mut players: Vec<crate::identifiers::PlayerId> = Vec::new();
        let mut i: usize = 0;
        while i < self.players.len()
            invariant
                i <= self.players@.len(),
                players@ == self.players@.take(i as int),
            decreases self.players@.len() - i,
        {
            players.push(self.players[i]);
            proof {
                assert(players@ =~= self.players@.take(i as int + 1));
            }
            i += 1;
        }
        let mut confirmations: Vec<crate::identifiers::PlayerId> = Vec::new();
        let mut j: usize = 0;
        while j < self.confirmations.len()
            invariant
                j <= self.confirmations@.len(),
                confirmations@ == self.confirmations@.take(j as int),
            decreases self.confirmations@.len() - j,
        {
            confirmations.push(self.confirmations[j]);
            proof {
                assert(confirmations@ =~= self.confirmations@.take(j as int + 1));
            }
            j += 1;
        }
        let mut results: Vec<RoundResult> = Vec::new();
        let mut k: usize = 0;
        while k < self.results.len()
            invariant
                k <= self.results@.len(),
                results@ == self.results@.take(k as int),
            decreases self.results@.len() - k,
        {
            results.push(self.results[k]);
            proof {
                assert(results@ =~= self.results@.take(k as int + 1));
            }
            k += 1;
        }
        proof {
            assert(self.players@.take(self.players@.len() as int) =~= self.players@);
            assert(self.confirmations@.take(self.confirmations@.len() as int)
                =~= self.confirmations@);
            assert(self.results@.take(self.results@.len() as int) =~= self.results@);
        }
        crate::round::Round {
            id: self.id,
            match_number: self.match_number,
            table_number: self.table_number,
            players,
            confirmations,
            results,
            status: self.status,
            winner: self.winner,
            length_secs: self.length_secs,
            extension_secs: self.extension_secs,
            is_bye: self.is_bye,
        }
    }
}


/// The pairing queues after a player readies up.
pub open spec fn spec_pairing_ready(
    ps: PairingSystemView,
    p: crate::identifiers::PlayerId,
) -> PairingSystemView {
    match ps {
        PairingSystemView::Swiss(s) => PairingSystemView::Swiss(
            SwissPairingsView { ready: crate::round::spec_set_insert(s.ready, p), ..s },
        ),
        PairingSystemView::Fluid(f) => PairingSystemView::Fluid(
            FluidPairingsView { queue: crate::round::spec_set_insert(f.queue, p), ..f },
        ),
    }
}

/// The id of the `k`-th round one operation creates: the operation's own
/// bits advanced by `k`, wrapping.
pub open spec fn spec_round_id(opid: u128, k: int) -> RoundId {
    RoundId(vstd::wrapping::u128_specs::wrapping_add(opid, k as u128))
}

/// Whether the `n` round ids an operation would mint are all unused and
/// mutually distinct. When they are not, the pairing pass is skipped rather
/// than half-applied.
pub open spec fn spec_pair_ids_ok(s: Seq<RoundView>, opid: u128, n: int) -> bool {
    (forall|k: int| 0 <= k < n ==> !rr_has_id(s, #[trigger] spec_round_id(opid, k))) && (forall|
        k: int,
        l: int,
    |
        0 <= k < l < n ==> spec_round_id(opid, k) != spec_round_id(opid, l))
}

/// The registry after the first `j` groups are materialized as rounds.
pub open spec fn spec_mat_upto(
    rr0: RoundRegistryView,
    gs: Seq<Seq<crate::identifiers::PlayerId>>,
    opid: u128,
    j: int,
) -> RoundRegistryView
    decreases j,
{
    if j <= 0 {
        rr0
    } else {
        let prev = spec_mat_upto(rr0, gs, opid, j - 1);
        RoundRegistryView {
            rounds: prev.rounds.push(
                spec_new_round_view(prev, spec_round_id(opid, j - 1), gs[j - 1]),
            ),
            ..prev
        }
    }
}

/// The round identifiers a materialization reports, in creation order.
pub open spec fn spec_mat_ids(opid: u128, n: int) -> Seq<RoundIdentView> {
    Seq::new(n as nat, |k: int| RoundIdentView::Id(spec_round_id(opid, k).0))
}

/// Readies the named player and, under fluid pairing, cuts new rounds as
/// soon as the queue holds a full table.
pub open spec fn spec_ready_player(
    t: TournamentView,
    ident: PlayerIdentView,
    opid: u128,
) -> TournStep {
    if t.status != TournamentStatus::Started {
        (t, Err(TournamentError::IncorrectStatus))
    } else {
        match spec_resolve(t.player_reg, ident) {
            None => (t, Err(TournamentError::PlayerLookup)),
            Some(i) => if t.player_reg[i].status == PlayerStatus::Dropped {
                (t, Ok(OpDataView::Nothing))
            } else {
                let p = crate::identifiers::PlayerId(t.player_reg[i].id);
                match t.pairing_sys {
                    PairingSystemView::Swiss(s) => (
                        TournamentView { pairing_sys: spec_pairing_ready(t.pairing_sys, p), ..t },
                        Ok(OpDataView::Nothing),
                    ),
                    PairingSystemView::Fluid(f) => {
                        let q2 = crate::round::spec_set_insert(f.queue, p);
                        let t2 = TournamentView {
                            pairing_sys: PairingSystemView::Fluid(
                                FluidPairingsView { queue: q2, ..f },
                            ),
                            ..t
                        };
                        if f.match_size > 0 && q2.len() >= f.match_size {
                            let (gs, lo) = spec_fluid_groups(q2, f.match_size);
                            if gs.len() > 0 && spec_pair_ids_ok(
                                t.round_reg.rounds,
                                opid,
                                gs.len() as int,
                            ) {
                                (
                                    TournamentView {
                                        pairing_sys: PairingSystemView::Fluid(
                                            FluidPairingsView { queue: lo, ..f },
                                        ),
                                        round_reg: spec_mat_upto(
                                            t.round_reg,
                                            gs,
                                            opid,
                                            gs.len() as int,
                                        ),
                                        ..t
                                    },
                                    Ok(OpDataView::Nothing),
                                )
                            } else {
                                (t2, Ok(OpDataView::Nothing))
                            }
                        } else {
                            (t2, Ok(OpDataView::Nothing))
                        }
                    },
                }
            },
        }
    }
}

/// Awards a bye: a fresh one-player round, immediately certified.
pub open spec fn spec_give_bye(t: TournamentView, ident: PlayerIdentView, opid: u128) -> TournStep {
    if t.status != TournamentStatus::Started {
        (t, Err(TournamentError::IncorrectStatus))
    } else {
        match spec_resolve(t.player_reg, ident) {
            None => (t, Err(TournamentError::PlayerLookup)),
            Some(i) => {
                let p = crate::identifiers::PlayerId(t.player_reg[i].id);
                let rid = RoundId(opid);
                let (rs1, res1) = spec_rr_create_with(t.round_reg, rid, seq![p]);
                match res1 {
                    Err(e) => (t, Err(e)),
                    Ok(idx) => {
                        let (rs2, res2) = spec_rr_bye(rs1, idx);
                        (
                            TournamentView {
                                round_reg: RoundRegistryView { rounds: rs2, ..t.round_reg },
                                ..t
                            },
                            Ok(OpDataView::GiveBye(RoundIdentView::Id(opid))),
                        )
                    },
                }
            },
        }
    }
}

/// Which players a list of identifiers names, if every one resolves.
pub open spec fn spec_resolve_all(s: Seq<PlayerView>, ivs: Seq<PlayerIdentView>) -> Option<
    Seq<crate::identifiers::PlayerId>,
>
    decreases ivs.len(),
{
    if ivs.len() == 0 {
        Some(Seq::empty())
    } else {
        match spec_resolve(s, ivs[0]) {
            None => None,
            Some(i) => match spec_resolve_all(s, ivs.drop_first()) {
                None => None,
                Some(rest) => Some(seq![crate::identifiers::PlayerId(s[i].id)] + rest),
            },
        }
    }
}

/// Creates a round holding exactly the named players, which must number the
/// configured game size and all exist.
pub open spec fn spec_create_round(
    t: TournamentView,
    ivs: Seq<PlayerIdentView>,
    opid: u128,
) -> TournStep {
    if t.status != TournamentStatus::Started {
        (t, Err(TournamentError::IncorrectStatus))
    } else if ivs.len() == t.game_size && spec_resolve_all(t.player_reg, ivs) is Some {
        let ids = spec_resolve_all(t.player_reg, ivs).unwrap();
        let rid = RoundId(opid);
        let (rs1, res1) = spec_rr_create_with(t.round_reg, rid, ids);
        match res1 {
            Err(e) => (t, Err(e)),
            Ok(idx) => (
                TournamentView {
                    round_reg: RoundRegistryView { rounds: rs1, ..t.round_reg },
                    ..t
                },
                Ok(OpDataView::CreateRound(RoundIdentView::Id(opid))),
            ),
        }
    } else {
        (t, Err(TournamentError::PlayerLookup))
    }
}

/// Pairs everyone currently eligible under the configured strategy,
/// reporting the new rounds' identifiers; when no full group can be formed
/// (or the minted ids are unusable) nothing changes and the report is empty.
pub open spec fn spec_pair_round(t: TournamentView, opid: u128) -> TournStep {
    if t.status != TournamentStatus::Started {
        (t, Err(TournamentError::IncorrectStatus))
    } else {
        match t.pairing_sys {
            PairingSystemView::Swiss(s) => {
                let pool = spec_eligible(s.ready, t.player_reg);
                let (gs, lo) = spec_swiss_groups(t.round_reg.rounds, pool, s.match_size);
                if gs.len() > 0 && spec_pair_ids_ok(t.round_reg.rounds, opid, gs.len() as int) {
                    (
                        TournamentView {
                            pairing_sys: PairingSystemView::Swiss(
                                SwissPairingsView { ready: lo, ..s },
                            ),
                            round_reg: spec_mat_upto(t.round_reg, gs, opid, gs.len() as int),
                            ..t
                        },
                        Ok(OpDataView::Pair(spec_mat_ids(opid, gs.len() as int))),
                    )
                } else {
                    (t, Ok(OpDataView::Pair(Seq::empty())))
                }
            },
            PairingSystemView::Fluid(f) => {
                let (gs, lo) = spec_fluid_groups(f.queue, f.match_size);
                if gs.len() > 0 && spec_pair_ids_ok(t.round_reg.rounds, opid, gs.len() as int) {
                    (
                        TournamentView {
                            pairing_sys: PairingSystemView::Fluid(
                                FluidPairingsView { queue: lo, ..f },
                            ),
                            round_reg: spec_mat_upto(t.round_reg, gs, opid, gs.len() as int),
                            ..t
                        },
                        Ok(OpDataView::Pair(spec_mat_ids(opid, gs.len() as int))),
                    )
                } else {
                    (t, Ok(OpDataView::Pair(Seq::empty())))
                }
            },
        }
    }
}

/// Whether the `n` round ids minted from `opid` are unused and distinct.
fn pair_ids_fresh(rr: &RoundRegistry, opid: u128, n: usize) -> (r: bool)
    requires
        rr.wf(),
    ensures
        r == spec_pair_ids_ok(rr@.rounds, opid, n as int),
{
    let mut k: usize = 0;
    while k < n
        invariant
            rr.wf(),
            k <= n,
            forall|m: int| 0 <= m < k ==> !rr_has_id(rr@.rounds, #[trigger] spec_round_id(opid, m)),
            forall|m: int, l: int|
                0 <= m < l < k ==> spec_round_id(opid, m) != spec_round_id(opid, l),
        decreases n - k,
    {
        let rid = RoundId(opid.wrapping_add(k as u128));
        proof {
            assert(rid == spec_round_id(opid, k as int));
        }
        if rr.round_index(&RoundIdentifier::Id(rid)).is_some() {
            return false;
        }
        let mut l: usize = 0;
        while l < k
            invariant
                k < n,
                l <= k,
                rid == spec_round_id(opid, k as int),
                forall|m: int| 0 <= m < l ==> spec_round_id(opid, m) != spec_round_id(opid, k as int),
            decreases k - l,
        {
            let prev = RoundId(opid.wrapping_add(l as u128));
            proof {
                assert(prev == spec_round_id(opid, l as int));
            }
            if prev == rid {
                return false;
            }
            l += 1;
        }
        k += 1;
    }
    true
}

/// Materializes groups as fresh open rounds, one per group, under the ids
/// minted from `opid`. The caller has already checked those ids.
fn materialize_groups(
    rr: &mut RoundRegistry,
    groups: &Vec<Vec<crate::identifiers::PlayerId>>,
    opid: u128,
) -> (r: Vec<RoundIdentifier>)
    requires
        old(rr).wf(),
        spec_pair_ids_ok(old(rr)@.rounds, opid, groups@.len() as int),
    ensures
        final(rr).wf(),
        final(rr)@ == spec_mat_upto(
            old(rr)@,
            crate::swiss_pairings::groups_view(groups@),
            opid,
            groups@.len() as int,
        ),
        round_idents_view(r@) == spec_mat_ids(opid, groups@.len() as int),
{
    let ghost rr0 = rr@;
    let ghost gv = crate::swiss_pairings::groups_view(groups@);
    let mut ids: Vec<RoundIdentifier> = Vec::new();
    let mut j: usize = 0;
    proof {
        assert(round_idents_view(ids@) =~= spec_mat_ids(opid, 0));
    }
    while j < groups.len()
        invariant
            rr.wf(),
            j <= groups@.len(),
            gv == crate::swiss_pairings::groups_view(groups@),
            gv.len() == groups@.len(),
            rr@ == spec_mat_upto(rr0, gv, opid, j as int),
            round_idents_view(ids@) == spec_mat_ids(opid, j as int),
            spec_pair_ids_ok(rr0.rounds, opid, groups@.len() as int),
            rr@.rounds.len() == rr0.rounds.len() + j,
            forall|m: int|
                j <= m < groups@.len() ==> !rr_has_id(
                    rr@.rounds,
                    #[trigger] spec_round_id(opid, m),
                ),
        decreases groups@.len() - j,
    {
        let rid = RoundId(opid.wrapping_add(j as u128));
        proof {
            assert(rid == spec_round_id(opid, j as int));
            assert(!rr_has_id(rr@.rounds, rid));
        }
        let ghost prev = rr@;
        let res = rr.create_round_with(rid, &groups[j]);
        proof {
            assert(crate::swiss_pairings::groups_view(groups@)[j as int] == groups@[j as int]@);
            if res is Err {
                assert(rr_has_id(prev.rounds, rid));
                assert(false);
            }
        }
        let ghost prev_ids = ids@;
        ids.push(RoundIdentifier::Id(rid));
        proof {
            assert(rr@ == spec_mat_upto(rr0, gv, opid, j as int + 1)) by {
                assert(rr@.rounds =~= prev.rounds.push(
                    spec_new_round_view(prev, rid, gv[j as int]),
                ));
            }
            assert(ids@ == prev_ids.push(RoundIdentifier::Id(rid)));
            assert(round_idents_view(prev_ids).len() == prev_ids.len());
            assert forall|m: int| 0 <= m < j as int + 1 implies round_idents_view(ids@)[m]
                == spec_mat_ids(opid, j as int + 1)[m] by {
                if m < j as int {
                    assert(ids@[m] == prev_ids[m]);
                    assert(round_idents_view(prev_ids)[m] == spec_mat_ids(opid, j as int)[m]);
                } else {
                    assert(ids@[m] == RoundIdentifier::Id(rid));
                }
            }
            assert(round_idents_view(ids@) =~= spec_mat_ids(opid, j as int + 1));
            assert forall|m: int|
                j as int + 1 <= m < groups@.len() implies !rr_has_id(
                rr@.rounds,
                #[trigger] spec_round_id(opid, m),
            ) by {
                if rr_has_id(rr@.rounds, spec_round_id(opid, m)) {
                    let i = crate::round_registry::rr_id_index(rr@.rounds, spec_round_id(opid, m));
                    assert(rr@.rounds[i].id == spec_round_id(opid, m));
                    if i < prev.rounds.len() {
                        assert(rr_has_id(prev.rounds, spec_round_id(opid, m))) by {
                            assert(prev.rounds[i].id == spec_round_id(opid, m));
                        }
                    } else {
                        assert(rr@.rounds[i].id == rid);
                        assert(spec_round_id(opid, j as int) != spec_round_id(opid, m));
                    }
                }
            }
        }
        j += 1;
    }
    ids
}

impl Tournament {
    /// Readies the named player; under fluid pairing a full queue cuts new
    /// rounds at once.
    pub(crate) fn ready_player(&mut self, ident: &PlayerIdentifier, opid: u128) -> (r: OpResult)
        requires
            old(self).wf(),
        ensures
            final(self).wf(),
            (final(self)@, op_result_view(r)) == spec_ready_player(old(self)@, ident@, opid),
    {
        if !self.is_active() {
            return Err(TournamentError::IncorrectStatus);
        }
        let can = match self.player_reg.get_player(ident) {
            None => {
                return Err(TournamentError::PlayerLookup);
            },
            Some(p) => p.can_play(),
        };
        if !can {
            return Ok(OpData::Nothing);
        }
        let p = match self.player_reg.get_player_id(ident) {
            None => {
                return Err(TournamentError::PlayerLookup);
            },
            Some(id) => id,
        };
        match &mut self.pairing_sys {
            PairingSystem::Swiss(sys) => {
                sys.ready_player(p);
                Ok(OpData::Nothing)
            },
            PairingSystem::Fluid(sys) => {
                sys.ready_player(p);
                if sys.ready_to_pair() {
                    let ghost q2 = sys@.queue;
                    let (gs, lo) = crate::fluid_pairings::fluid_rec(&sys.queue, 0, sys.match_size);
                    proof {
                        assert(sys@.queue.skip(0) =~= sys@.queue);
                        crate::fluid_pairings::lemma_fluid_leftover_unique(q2, sys@.match_size);
                    }
                    if gs.len() > 0 && pair_ids_fresh(&self.round_reg, opid, gs.len()) {
                        let _ids = materialize_groups(&mut self.round_reg, &gs, opid);
                        sys.queue = lo;
                    }
                }
                Ok(OpData::Nothing)
            },
        }
    }

    /// Awards a bye to the named player.
    pub(crate) fn give_bye(&mut self, ident: &PlayerIdentifier, opid: u128) -> (r: OpResult)
        requires
            old(self).wf(),
        ensures
            final(self).wf(),
            (final(self)@, op_result_view(r)) == spec_give_bye(old(self)@, ident@, opid),
    {
        if !self.is_active() {
            return Err(TournamentError::IncorrectStatus);
        }
        let p = match self.player_reg.get_player_id(ident) {
            None => {
                return Err(TournamentError::PlayerLookup);
            },
            Some(id) => id,
        };
        let rid = RoundId(opid);
        let mut ps: Vec<crate::identifiers::PlayerId> = Vec::new();
        ps.push(p);
        proof {
            assert(ps@ =~= seq![p]);
        }
        let idx = match self.round_reg.create_round_with(rid, &ps) {
            Err(e) => {
                return Err(e);
            },
            Ok(i) => i,
        };
        proof {
            assert(!Seq::<crate::identifiers::PlayerId>::empty().contains(p));
            assert(crate::round_registry::spec_distinct_upto(seq![p], 0)
                == Seq::<crate::identifiers::PlayerId>::empty());
            assert(crate::round_registry::spec_distinct_upto(seq![p], 1)
                =~= Seq::<crate::identifiers::PlayerId>::empty().push(p));
            assert(spec_distinct(seq![p]).len() == 1);
            assert(self@.round_reg.rounds[idx as int].players.len() == 1);
        }
        let res = self.round_reg.record_bye_at(idx);
        match res {
            Ok(rid2) => Ok(OpData::GiveBye(RoundIdentifier::Id(rid2))),
            Err(_) => {
                proof {
                    assert(false);
                }
                Err(TournamentError::InvalidBye)
            },
        }
    }

    /// Creates a round with exactly the named players.
    pub(crate) fn create_round(&mut self, idents: &Vec<PlayerIdentifier>, opid: u128) -> (r:
        OpResult)
        requires
            old(self).wf(),
        ensures
            final(self).wf(),
            (final(self)@, op_result_view(r)) == spec_create_round(
                old(self)@,
                idents_view(idents@),
                opid,
            ),
    {
        if !self.is_active() {
            return Err(TournamentError::IncorrectStatus);
        }
        proof {
            assert(idents_view(idents@).len() == idents@.len());
        }
        if idents.len() != self.game_size as usize {
            return Err(TournamentError::PlayerLookup);
        }
        proof {
            assert(idents@.skip(0) =~= idents@);
            assert(idents_view(idents@.skip(0)) =~= idents_view(idents@));
        }
        let ids = match resolve_all(&self.player_reg, idents, 0) {
            None => {
                return Err(TournamentError::PlayerLookup);
            },
            Some(ids) => ids,
        };
        let rid = RoundId(opid);
        match self.round_reg.create_round_with(rid, &ids) {
            Err(e) => Err(e),
            Ok(_) => Ok(OpData::CreateRound(RoundIdentifier::Id(rid))),
        }
    }

    /// Pairs everyone currently eligible under the configured strategy.
    pub(crate) fn pair(&mut self, opid: u128) -> (r: OpResult)
        requires
            old(self).wf(),
        ensures
            final(self).wf(),
            (final(self)@, op_result_view(r)) == spec_pair_round(old(self)@, opid),
    {
        if !self.is_active() {
            return Err(TournamentError::IncorrectStatus);
        }
        match &mut self.pairing_sys {
            PairingSystem::Swiss(sys) => {
                let pool = crate::swiss_pairings::eligible_players(&sys.ready, &self.player_reg);
                proof {
                    crate::swiss_pairings::lemma_eligible_unique(sys@.ready, self.player_reg@);
                    crate::swiss_pairings::lemma_swiss_groups_members(
                        self.round_reg@.rounds,
                        pool@,
                        sys@.match_size,
                    );
                }
                let (gs, lo) = crate::swiss_pairings::swiss_groups_rec(
                    &self.round_reg,
                    pool,
                    sys.match_size,
                );
                if gs.len() > 0 && pair_ids_fresh(&self.round_reg, opid, gs.len()) {
                    let ids = materialize_groups(&mut self.round_reg, &gs, opid);
                    sys.ready = lo;
                    Ok(OpData::Pair(ids))
                } else {
                    let empty: Vec<RoundIdentifier> = Vec::new();
                    proof {
                        assert(round_idents_view(empty@) =~= Seq::<RoundIdentView>::empty());
                        assert(spec_mat_ids(opid, 0) =~= Seq::<RoundIdentView>::empty());
                    }
                    Ok(OpData::Pair(empty))
                }
            },
            PairingSystem::Fluid(sys) => {
                let (gs, lo) = crate::fluid_pairings::fluid_rec(&sys.queue, 0, sys.match_size);
                proof {
                    assert(sys@.queue.skip(0) =~= sys@.queue);
                    crate::fluid_pairings::lemma_fluid_leftover_unique(sys@.queue, sys@.match_size);
                }
                if gs.len() > 0 && pair_ids_fresh(&self.round_reg, opid, gs.len()) {
                    let ids = materialize_groups(&mut self.round_reg, &gs, opid);
                    sys.queue = lo;
                    Ok(OpData::Pair(ids))
                } else {
                    let empty: Vec<RoundIdentifier> = Vec::new();
                    proof {
                        assert(round_idents_view(empty@) =~= Seq::<RoundIdentView>::empty());
                        assert(spec_mat_ids(opid, 0) =~= Seq::<RoundIdentView>::empty());
                    }
                    Ok(OpData::Pair(empty))
                }
            },
        }
    }
}

/// Resolves `idents[k..]` to player ids, mirroring `spec_resolve_all`.
fn resolve_all(
    reg: &PlayerRegistry,
    idents: &Vec<PlayerIdentifier>,
    k: usize,
) -> (r: Option<Vec<crate::identifiers::PlayerId>>)
    requires
        reg.wf(),
        k <= idents@.len(),
    ensures
        match r {
            Some(ids) => spec_resolve_all(reg@, idents_view(idents@.skip(k as int))) == Some(ids@),
            None => spec_resolve_all(reg@, idents_view(idents@.skip(k as int))) is None,
        },
    decreases idents@.len() - k,
{
    if k == idents.len() {
        proof {
            assert(idents_view(idents@.skip(k as int)) =~= Seq::<PlayerIdentView>::empty());
        }
        let out: Vec<crate::identifiers::PlayerId> = Vec::new();
        proof {
            assert(out@ =~= Seq::<crate::identifiers::PlayerId>::empty());
        }
        Some(out)
    } else {
        let ghost tail = idents_view(idents@.skip(k as int));
        proof {
            assert(idents@.skip(k as int).len() == idents@.len() - k);
            assert(tail[0] == idents@[k as int]@);
            assert(idents@.skip(k as int).drop_first() =~= idents@.skip(k as int + 1));
            assert(tail.drop_first() =~= idents_view(idents@.skip(k as int + 1)));
        }
        let i = match reg.player_index(&idents[k]) {
            None => {
                return None;
            },
            Some(i) => i,
        };
        let rest = match resolve_all(reg, idents, k + 1) {
            None => {
                return None;
            },
            Some(rest) => rest,
        };
        let mut out: Vec<crate::identifiers::PlayerId> = Vec::new();
        out.push(reg.players[i].id);
        let mut j: usize = 0;
        let ghost rv = rest@;
        let ghost first = reg@[i as int].id;
        while j < rest.len()
            invariant
                j <= rv.len(),
                rest@ == rv,
                out@ == seq![crate::identifiers::PlayerId(first)] + rv.take(j as int),
            decreases rv.len() - j,
        {
            out.push(rest[j]);
            proof {
                assert(out@ =~= seq![crate::identifiers::PlayerId(first)] + rv.take(j as int + 1));
            }
            j += 1;
        }
        proof {
            assert(rv.take(rv.len() as int) =~= rv);
        }
        Some(out)
    }
}

impl PairingSystem {
    /// Marks a player ready under whichever strategy is configured.
    pub fn ready_player(&mut self, id: crate::identifiers::PlayerId)
        requires
            match old(self)@ {
                PairingSystemView::Swiss(s) => crate::round::players_unique(s.ready),
                PairingSystemView::Fluid(f) => crate::round::players_unique(f.queue),
            },
        ensures
            final(self)@ == spec_pairing_ready(old(self)@, id),
    {
        match self {
            PairingSystem::Swiss(sys) => sys.ready_player(id),
            PairingSystem::Fluid(sys) => sys.ready_player(id),
        }
    }

    /// Pairs under whichever strategy is configured, mutating the ready
    /// queue; `None` means nothing to pair right now.
    pub fn pair(&mut self, plyr_reg: &PlayerRegistry, rnd_reg: &RoundRegistry) -> (r: Option<
        Vec<Vec<crate::identifiers::PlayerId>>,
    >)
        requires
            match old(self)@ {
                PairingSystemView::Swiss(s) => crate::round::players_unique(s.ready),
                PairingSystemView::Fluid(f) => crate::round::players_unique(f.queue),
            },
            plyr_reg.wf(),
        ensures
            match old(self)@ {
                PairingSystemView::Swiss(s) => {
                    let pool = spec_eligible(s.ready, plyr_reg@);
                    let (gs, lo) = spec_swiss_groups(rnd_reg@.rounds, pool, s.match_size);
                    if gs.len() > 0 {
                        r is Some && crate::swiss_pairings::groups_view(r.unwrap()@) == gs
                            && final(self)@ == PairingSystemView::Swiss(
                            SwissPairingsView { ready: lo, ..s },
                        )
                    } else {
                        r is None && final(self)@ == old(self)@
                    }
                },
                PairingSystemView::Fluid(f) => {
                    let (gs, lo) = spec_fluid_groups(f.queue, f.match_size);
                    if gs.len() > 0 {
                        r is Some && crate::swiss_pairings::groups_view(r.unwrap()@) == gs
                            && final(self)@ == PairingSystemView::Fluid(
                            FluidPairingsView { queue: lo, ..f },
                        )
                    } else {
                        r is None && final(self)@ == old(self)@
                    }
                },
            },
    {
        match self {
            PairingSystem::Swiss(sys) => sys.pair(plyr_reg, rnd_reg),
            PairingSystem::Fluid(sys) => sys.pair(plyr_reg, rnd_reg),
        }
    }
}


/// The single state-transition function: what one operation does to one
/// tournament, as a mathematical function of the state and the operation.
/// Every replay of a log folds this function. It is kept opaque so that
/// log-level reasoning treats one step as an abstract function; proofs that
/// need the dispatch reveal it.
#[verifier::opaque]
pub open spec fn spec_apply(t: TournamentView, op: FullOpView) -> TournStep {
    match op.op {
        TournOpView::UpdateReg(b) => spec_update_reg(t, b),
        TournOpView::Start => spec_start(t),
        TournOpView::Freeze => spec_freeze(t),
        TournOpView::Thaw => spec_thaw(t),
        TournOpView::End => spec_end(t),
        TournOpView::Cancel => spec_cancel(t),
        TournOpView::CheckIn(p) => spec_check_in(t, p),
        TournOpView::RegisterPlayer(n) => spec_register_player(t, n, op.id),
        TournOpView::RecordResult(rident, result) => spec_record_result(t, rident, result),
        TournOpView::ConfirmResult(p) => spec_confirm_result(t, p),
        TournOpView::DropPlayer(p) => spec_drop_player(t, p),
        TournOpView::AdminDropPlayer(p) => spec_drop_player(t, p),
        TournOpView::AddDeck(p, n, d) => spec_player_add_deck(t, p, n, d),
        TournOpView::RemoveDeck(p, n) => spec_remove_player_deck(t, p, n),
        TournOpView::SetGamerTag(p, n) => spec_player_set_game_name(t, p, n),
        TournOpView::ReadyPlayer(p) => spec_ready_player(t, p, op.id),
        TournOpView::UnReadyPlayer(p) => spec_unready_player(t, p),
        TournOpView::UpdateTournSetting(sv) => spec_update_setting(t, sv),
        TournOpView::GiveBye(p) => spec_give_bye(t, p, op.id),
        TournOpView::CreateRound(ivs) => spec_create_round(t, ivs, op.id),
        TournOpView::PairRound => spec_pair_round(t, op.id),
        TournOpView::TimeExtension(rident, secs) => spec_time_extension(t, rident, secs),
    }
}

impl Tournament {
    /// Applies one operation: validates it against the current state, then
    /// either commits the change and reports the outcome, or leaves the
    /// tournament untouched and reports the error.
    pub fn apply_op(&mut self, op: &FullOp) -> (r: OpResult)
        requires
            old(self).wf(),
        ensures
            final(self).wf(),
            (final(self)@, op_result_view(r)) == spec_apply(old(self)@, op@),
            r is Err ==> final(self)@ == old(self)@,
    {
        proof {
            reveal(spec_apply);
        }
        let opid = op.id.0;
        let r = match &op.op {
            TournOp::UpdateReg(b) => self.update_reg(*b),
            TournOp::Start() => self.start(),
            TournOp::Freeze() => self.freeze(),
            TournOp::Thaw() => self.thaw(),
            TournOp::End() => self.end(),
            TournOp::Cancel() => self.cancel(),
            TournOp::CheckIn(p) => self.check_in(p),
            TournOp::RegisterPlayer(n) => self.register_player(n.clone(), opid),
            TournOp::RecordResult(rident, result) => self.record_result(rident, *result),
            TournOp::ConfirmResult(p) => self.confirm_round(p),
            TournOp::DropPlayer(p) => self.drop_player(p),
            TournOp::AdminDropPlayer(p) => self.admin_drop_player(p),
            TournOp::AddDeck(p, n, d) => self.player_add_deck(p, n.clone(), d.clone()),
            TournOp::RemoveDeck(p, n) => self.remove_player_deck(p, n),
            TournOp::SetGamerTag(p, n) => self.player_set_game_name(p, n.clone()),
            TournOp::ReadyPlayer(p) => self.ready_player(p, opid),
            TournOp::UnReadyPlayer(p) => self.unready_player(p),
            TournOp::UpdateTournSetting(sv) => self.update_setting(sv.clone()),
            TournOp::GiveBye(p) => self.give_bye(p, opid),
            TournOp::CreateRound(ivs) => self.create_round(ivs, opid),
            TournOp::PairRound() => self.pair(opid),
            TournOp::TimeExtension(rident, secs) => self.give_time_extension(rident, *secs),
        };
        proof {
            if r is Err {
                assert(spec_apply(old(self)@, op@).0 == old(self)@);
            }
        }
        r
    }
}


impl Clone for PairingSystem {
    /// A copy with the same observable content.
    fn clone(&self) -> (r: Self)
        ensures
            r@ == self@,
    {
        match self {
            PairingSystem::Swiss(s) => PairingSystem::Swiss(s.clone()),
            PairingSystem::Fluid(f) => PairingSystem::Fluid(f.clone()),
        }
    }
}

impl Clone for Tournament {
    /// A deep copy with the same observable content.
    fn clone(&self) -> (r: Self)
        ensures
            r@ == self@,
    {
        Tournament {
            id: self.id,
            name: self.name.clone(),
            use_table_number: self.use_table_number,
            format: self.format.clone(),
            game_size: self.game_size,
            min_deck_count: self.min_deck_count,
            max_deck_count: self.max_deck_count,
            player_reg: self.player_reg.clone(),
            round_reg: self.round_reg.clone(),
            pairing_sys: self.pairing_sys.clone(),
            scoring_sys: self.scoring_sys,
            reg_open: self.reg_open,
            require_check_in: self.require_check_in,
            require_deck_reg: self.require_deck_reg,
            status: self.status,
        }
    }
}

} // verus!
