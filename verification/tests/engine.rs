//! End-to-end checks of the tournament state machine: lifecycle, rounds,
//! byes, decks, settings and standings, all driven through the operation
//! log.

use squire_lib::identifiers::{OpId, PlayerId, PlayerIdentifier, RoundId, RoundIdentifier};
use squire_lib::op_log::OpLog;
use squire_lib::operations::{OpData, TournOp};
use squire_lib::error::TournamentError;
use squire_lib::round::{Round, RoundResult, RoundStatus};
use squire_lib::settings::{
    FluidPairingsSetting, PairingSetting, SwissPairingsSetting, TournamentSetting,
};
use squire_lib::player_registry::PlayerRegistry;
use squire_lib::round_registry::RoundRegistry;
use squire_lib::tournament::{
    pairing_system_factory, Tournament, TournamentPreset, TournamentStatus,
};

fn new_log(preset: TournamentPreset) -> OpLog {
    let base = Tournament::from_preset_with_id(
        7,
        String::from("cup"),
        preset,
        String::from("standard"),
    );
    OpLog::new(base)
}

fn sample_deck(name: &str) -> mtgjson::DeckSet {
    mtgjson::DeckSet {
        code: String::from("TST"),
        commander: None,
        main_board: Vec::new(),
        name: String::from(name),
        release_date: None,
        sealed_product_uuids: None,
        side_board: Vec::new(),
        deck_set_type: String::from("constructed"),
    }
}

fn ident(name: &str) -> PlayerIdentifier {
    PlayerIdentifier::Name(String::from(name))
}

#[test]
fn start_requires_planned() {
    let mut log = new_log(TournamentPreset::Swiss);
    assert!(matches!(log.append_with_id(OpId(1), TournOp::Start()), Ok(OpData::Nothing)));
    assert_eq!(log.get_state().status, TournamentStatus::Started);
    assert!(matches!(
        log.append_with_id(OpId(2), TournOp::Start()),
        Err(TournamentError::IncorrectStatus)
    ));
    assert_eq!(log.len(), 1);
}

#[test]
fn freeze_thaw_cycle() {
    let mut log = new_log(TournamentPreset::Swiss);
    assert!(log.append_with_id(OpId(1), TournOp::Start()).is_ok());
    assert!(log.append_with_id(OpId(2), TournOp::Freeze()).is_ok());
    assert_eq!(log.get_state().status, TournamentStatus::Frozen);
    assert!(matches!(
        log.append_with_id(OpId(3), TournOp::Freeze()),
        Err(TournamentError::IncorrectStatus)
    ));
    assert!(log.append_with_id(OpId(4), TournOp::Thaw()).is_ok());
    assert_eq!(log.get_state().status, TournamentStatus::Started);
    assert!(log.append_with_id(OpId(5), TournOp::End()).is_ok());
    assert_eq!(log.get_state().status, TournamentStatus::Ended);
}

#[test]
fn registration_closed_is_rejected() {
    let mut log = new_log(TournamentPreset::Swiss);
    assert!(log.append_with_id(OpId(1), TournOp::Start()).is_ok());
    assert!(log.append_with_id(OpId(2), TournOp::UpdateReg(false)).is_ok());
    assert!(matches!(
        log.append_with_id(OpId(3), TournOp::RegisterPlayer(String::from("A"))),
        Err(TournamentError::RegClosed)
    ));
    assert!(log.append_with_id(OpId(4), TournOp::UpdateReg(true)).is_ok());
    assert!(log.append_with_id(OpId(5), TournOp::RegisterPlayer(String::from("A"))).is_ok());
}

#[test]
fn duplicate_name_is_player_lookup() {
    let mut log = new_log(TournamentPreset::Swiss);
    assert!(log.append_with_id(OpId(1), TournOp::Start()).is_ok());
    assert!(log.append_with_id(OpId(10), TournOp::RegisterPlayer(String::from("A"))).is_ok());
    assert!(matches!(
        log.append_with_id(OpId(11), TournOp::RegisterPlayer(String::from("A"))),
        Err(TournamentError::PlayerLookup)
    ));
    assert_eq!(log.get_state().player_reg.players.len(), 1);
}

/// The tournament scenario: two players, one round, a reported win, both
/// confirmations; the round certifies and the winner ranks first.
#[test]
fn scenario_round_certifies_and_ranks_winner() {
    let mut log = new_log(TournamentPreset::Swiss);
    assert!(log.append_with_id(OpId(1), TournOp::Start()).is_ok());
    assert!(log.append_with_id(OpId(10), TournOp::RegisterPlayer(String::from("A"))).is_ok());
    assert!(log.append_with_id(OpId(20), TournOp::RegisterPlayer(String::from("B"))).is_ok());
    let r = log.append_with_id(
        OpId(30),
        TournOp::CreateRound(vec![ident("A"), ident("B")]),
    );
    assert!(matches!(r, Ok(OpData::CreateRound(_))));
    let rid = RoundIdentifier::Id(RoundId(30));
    assert!(log
        .append_with_id(OpId(40), TournOp::RecordResult(rid, RoundResult::Wins(PlayerId(10), 1)))
        .is_ok());
    let c1 = log.append_with_id(OpId(50), TournOp::ConfirmResult(ident("A")));
    assert!(matches!(c1, Ok(OpData::ConfirmResult(RoundStatus::Uncertified))));
    let round = log.get_state().get_round(&RoundIdentifier::Id(RoundId(30))).unwrap();
    assert_eq!(round.status, RoundStatus::Uncertified);
    let c2 = log.append_with_id(OpId(60), TournOp::ConfirmResult(ident("B")));
    assert!(matches!(c2, Ok(OpData::ConfirmResult(RoundStatus::Certified))));
    let round = log.get_state().get_round(&RoundIdentifier::Id(RoundId(30))).unwrap();
    assert_eq!(round.status, RoundStatus::Certified);
    assert_eq!(round.winner, Some(PlayerId(10)));

    let standings = log.get_state().get_standings();
    assert_eq!(standings.scores.len(), 2);
    assert_eq!(standings.scores[0].player, PlayerId(10));
    assert_eq!(standings.scores[0].score, 2);
    assert_eq!(standings.scores[1].player, PlayerId(20));
    assert_eq!(standings.scores[1].score, 0);
}

/// The bye scenario: one registered player takes a bye; the new round is a
/// certified bye with that player as winner, in a single log append.
#[test]
fn scenario_give_bye() {
    let mut log = new_log(TournamentPreset::Swiss);
    assert!(log.append_with_id(OpId(1), TournOp::Start()).is_ok());
    assert!(log.append_with_id(OpId(10), TournOp::RegisterPlayer(String::from("A"))).is_ok());
    let before = log.len();
    let r = log.append_with_id(OpId(99), TournOp::GiveBye(ident("A")));
    assert!(matches!(r, Ok(OpData::GiveBye(RoundIdentifier::Id(RoundId(99))))));
    assert_eq!(log.len(), before + 1);
    let round = log.get_state().get_round(&RoundIdentifier::Id(RoundId(99))).unwrap();
    assert!(round.is_bye);
    assert_eq!(round.status, RoundStatus::Certified);
    assert_eq!(round.winner, Some(PlayerId(10)));
    assert_eq!(round.players, vec![PlayerId(10)]);
    // A bye counts as a win.
    let standings = log.get_state().get_standings();
    assert_eq!(standings.scores[0].player, PlayerId(10));
    assert_eq!(standings.scores[0].score, 2);
}

#[test]
fn record_bye_rejects_two_players() {
    let mut round = Round::new(RoundId(1), 0, 0, 3000);
    round.add_player(PlayerId(1));
    round.add_player(PlayerId(2));
    assert!(matches!(round.record_bye(), Err(TournamentError::InvalidBye)));
    assert_eq!(round.status, RoundStatus::Open);
    let mut solo = Round::new(RoundId(2), 1, 1, 3000);
    solo.add_player(PlayerId(3));
    assert!(matches!(solo.record_bye(), Ok(RoundId(2))));
    assert_eq!(solo.status, RoundStatus::Certified);
}

#[test]
fn result_must_name_participant() {
    let mut log = new_log(TournamentPreset::Swiss);
    assert!(log.append_with_id(OpId(1), TournOp::Start()).is_ok());
    assert!(log.append_with_id(OpId(10), TournOp::RegisterPlayer(String::from("A"))).is_ok());
    assert!(log.append_with_id(OpId(20), TournOp::RegisterPlayer(String::from("B"))).is_ok());
    assert!(log.append_with_id(OpId(30), TournOp::RegisterPlayer(String::from("C"))).is_ok());
    assert!(log
        .append_with_id(OpId(40), TournOp::CreateRound(vec![ident("A"), ident("B")]))
        .is_ok());
    let rid = RoundIdentifier::Id(RoundId(40));
    assert!(matches!(
        log.append_with_id(
            OpId(50),
            TournOp::RecordResult(rid, RoundResult::Wins(PlayerId(30), 1)),
        ),
        Err(TournamentError::PlayerNotInRound)
    ));
    assert!(matches!(
        log.append_with_id(
            OpId(60),
            TournOp::RecordResult(
                RoundIdentifier::Number(9),
                RoundResult::Wins(PlayerId(10), 1),
            ),
        ),
        Err(TournamentError::RoundLookup)
    ));
}

#[test]
fn deck_round_trip_and_removal() {
    let mut log = new_log(TournamentPreset::Swiss);
    assert!(log.append_with_id(OpId(1), TournOp::Start()).is_ok());
    assert!(log.append_with_id(OpId(10), TournOp::RegisterPlayer(String::from("A"))).is_ok());
    let deck = sample_deck("gruul");
    assert!(log
        .append_with_id(OpId(20), TournOp::AddDeck(ident("A"), String::from("main"), deck))
        .is_ok());
    let got = log.get_state().get_player_deck(&ident("A"), &String::from("main")).unwrap();
    assert_eq!(got.name, "gruul");
    assert_eq!(got.code, "TST");
    assert!(matches!(
        log.get_state().get_player_deck(&ident("A"), &String::from("side")),
        Err(TournamentError::DeckLookup)
    ));
    assert!(matches!(
        log.append_with_id(OpId(30), TournOp::RemoveDeck(ident("A"), String::from("side"))),
        Err(TournamentError::DeckLookup)
    ));
    assert!(log
        .append_with_id(OpId(40), TournOp::RemoveDeck(ident("A"), String::from("main")))
        .is_ok());
    assert!(matches!(
        log.get_state().get_player_deck(&ident("A"), &String::from("main")),
        Err(TournamentError::DeckLookup)
    ));
}

#[test]
fn setting_must_match_strategy() {
    let mut log = new_log(TournamentPreset::Swiss);
    assert!(matches!(
        log.append_with_id(
            OpId(1),
            TournOp::UpdateTournSetting(TournamentSetting::PairingSetting(
                PairingSetting::Fluid(FluidPairingsSetting::MatchSize(4)),
            )),
        ),
        Err(TournamentError::IncompatiblePairingSystem)
    ));
    assert!(log
        .append_with_id(
            OpId(2),
            TournOp::UpdateTournSetting(TournamentSetting::PairingSetting(
                PairingSetting::Swiss(SwissPairingsSetting::MatchSize(2)),
            )),
        )
        .is_ok());
    assert!(log
        .append_with_id(
            OpId(3),
            TournOp::UpdateTournSetting(TournamentSetting::Format(String::from("legacy"))),
        )
        .is_ok());
    assert_eq!(log.get_state().format, "legacy");
}

/// Swiss never seats two players together twice: after the first paired
/// round certifies, the second pairing pass crosses the tables.
#[test]
fn swiss_avoids_repeat_opponents() {
    let mut log = new_log(TournamentPreset::Swiss);
    assert!(log.append_with_id(OpId(1), TournOp::Start()).is_ok());
    for (bits, name) in [(10u128, "A"), (20, "B"), (30, "C"), (40, "D")] {
        assert!(log
            .append_with_id(OpId(bits), TournOp::RegisterPlayer(String::from(name)))
            .is_ok());
    }
    for (bits, name) in [(51u128, "A"), (52, "B"), (53, "C"), (54, "D")] {
        assert!(log.append_with_id(OpId(bits), TournOp::ReadyPlayer(ident(name))).is_ok());
    }
    let r = log.append_with_id(OpId(100), TournOp::PairRound());
    let first_pairs: Vec<Vec<PlayerId>> = match r {
        Ok(OpData::Pair(ids)) => ids
            .iter()
            .map(|ri| log.get_state().get_round(ri).unwrap().players)
            .collect(),
        _ => panic!("pairing failed"),
    };
    assert_eq!(first_pairs, vec![vec![PlayerId(10), PlayerId(20)], vec![
        PlayerId(30),
        PlayerId(40),
    ]]);
    // Certify both rounds with a draw so everyone stays level.
    for (op_base, rid) in [(200u128, 100u128), (210, 101)] {
        let rident = RoundIdentifier::Id(RoundId(rid));
        assert!(log
            .append_with_id(OpId(op_base), TournOp::RecordResult(rident, RoundResult::Draw()))
            .is_ok());
    }
    for (op, name) in [(220u128, "A"), (221, "B"), (222, "C"), (223, "D")] {
        assert!(log.append_with_id(OpId(op), TournOp::ConfirmResult(ident(name))).is_ok());
    }
    for (bits, name) in [(301u128, "A"), (302, "B"), (303, "C"), (304, "D")] {
        assert!(log.append_with_id(OpId(bits), TournOp::ReadyPlayer(ident(name))).is_ok());
    }
    let r2 = log.append_with_id(OpId(400), TournOp::PairRound());
    let second_pairs: Vec<Vec<PlayerId>> = match r2 {
        Ok(OpData::Pair(ids)) => ids
            .iter()
            .map(|ri| log.get_state().get_round(ri).unwrap().players)
            .collect(),
        _ => panic!("pairing failed"),
    };
    assert_eq!(second_pairs, vec![vec![PlayerId(10), PlayerId(30)], vec![
        PlayerId(20),
        PlayerId(40),
    ]]);
}

/// Fluid pairing fires as soon as the queue holds a full table, without an
/// explicit pairing call.
#[test]
fn fluid_pairs_on_ready() {
    let mut log = new_log(TournamentPreset::Fluid);
    assert!(log.append_with_id(OpId(1), TournOp::Start()).is_ok());
    assert!(log.append_with_id(OpId(10), TournOp::RegisterPlayer(String::from("A"))).is_ok());
    assert!(log.append_with_id(OpId(20), TournOp::RegisterPlayer(String::from("B"))).is_ok());
    assert!(log.append_with_id(OpId(30), TournOp::ReadyPlayer(ident("A"))).is_ok());
    assert_eq!(log.get_state().round_reg.rounds.len(), 0);
    assert!(log.append_with_id(OpId(31), TournOp::ReadyPlayer(ident("B"))).is_ok());
    assert_eq!(log.get_state().round_reg.rounds.len(), 1);
    assert_eq!(log.get_state().round_reg.rounds[0].players, vec![
        PlayerId(10),
        PlayerId(20),
    ]);
}

#[test]
fn unready_is_idempotent() {
    let mut log = new_log(TournamentPreset::Fluid);
    assert!(log.append_with_id(OpId(1), TournOp::Start()).is_ok());
    assert!(log.append_with_id(OpId(10), TournOp::RegisterPlayer(String::from("A"))).is_ok());
    assert!(log.append_with_id(OpId(20), TournOp::UnReadyPlayer(ident("A"))).is_ok());
    assert!(log.append_with_id(OpId(21), TournOp::ReadyPlayer(ident("A"))).is_ok());
    assert!(log.append_with_id(OpId(22), TournOp::UnReadyPlayer(ident("A"))).is_ok());
    assert!(log.append_with_id(OpId(23), TournOp::UnReadyPlayer(ident("A"))).is_ok());
    assert!(log.append_with_id(OpId(24), TournOp::ReadyPlayer(ident("A"))).is_ok());
    assert_eq!(log.get_state().round_reg.rounds.len(), 0);
}

#[test]
fn dropped_player_is_kept_with_status() {
    let mut log = new_log(TournamentPreset::Swiss);
    assert!(log.append_with_id(OpId(1), TournOp::Start()).is_ok());
    assert!(log.append_with_id(OpId(10), TournOp::RegisterPlayer(String::from("A"))).is_ok());
    assert!(log.append_with_id(OpId(20), TournOp::DropPlayer(ident("A"))).is_ok());
    let p = log.get_state().get_player(&ident("A")).unwrap();
    assert_eq!(p.status, squire_lib::player::PlayerStatus::Dropped);
    // A dropped player earns no standings line.
    assert_eq!(log.get_state().get_standings().scores.len(), 0);
}

#[test]
fn time_extension_and_time_left() {
    let mut log = new_log(TournamentPreset::Swiss);
    assert!(log.append_with_id(OpId(1), TournOp::Start()).is_ok());
    assert!(log.append_with_id(OpId(10), TournOp::RegisterPlayer(String::from("A"))).is_ok());
    assert!(log.append_with_id(OpId(90), TournOp::GiveBye(ident("A"))).is_ok());
    let rident = RoundIdentifier::Id(RoundId(90));
    assert!(log
        .append_with_id(OpId(91), TournOp::TimeExtension(rident, 120))
        .is_ok());
    let round = log.get_state().get_round(&RoundIdentifier::Id(RoundId(90))).unwrap();
    // Default length 3000 seconds plus the 120 second extension.
    assert_eq!(round.time_left(100), 3020);
    assert_eq!(round.time_left(5000), 0);
}

#[test]
fn gamer_tag_and_check_in() {
    let mut log = new_log(TournamentPreset::Swiss);
    assert!(log.append_with_id(OpId(1), TournOp::Start()).is_ok());
    assert!(log.append_with_id(OpId(10), TournOp::RegisterPlayer(String::from("A"))).is_ok());
    assert!(log
        .append_with_id(OpId(20), TournOp::SetGamerTag(ident("A"), String::from("a#1")))
        .is_ok());
    assert_eq!(
        log.get_state().get_player(&ident("A")).unwrap().game_name,
        Some(String::from("a#1"))
    );
    assert!(log.append_with_id(OpId(30), TournOp::CheckIn(ident("A"))).is_ok());
    assert_eq!(
        log.get_state().get_player(&ident("A")).unwrap().status,
        squire_lib::player::PlayerStatus::CheckedIn
    );
    assert!(matches!(
        log.append_with_id(OpId(40), TournOp::CheckIn(ident("nobody"))),
        Err(TournamentError::PlayerLookup)
    ));
}

#[test]
fn player_deck_listing() {
    let mut log = new_log(TournamentPreset::Swiss);
    assert!(log.append_with_id(OpId(1), TournOp::Start()).is_ok());
    assert!(log.append_with_id(OpId(10), TournOp::RegisterPlayer(String::from("A"))).is_ok());
    assert!(log
        .append_with_id(OpId(20), TournOp::AddDeck(ident("A"), String::from("main"), sample_deck("x")))
        .is_ok());
    assert!(log
        .append_with_id(OpId(21), TournOp::AddDeck(ident("A"), String::from("side"), sample_deck("y")))
        .is_ok());
    // Re-adding under an existing name replaces the deck in place.
    assert!(log
        .append_with_id(OpId(22), TournOp::AddDeck(ident("A"), String::from("main"), sample_deck("z")))
        .is_ok());
    let decks = log.get_state().get_player_decks(&ident("A")).unwrap();
    let listing: Vec<(String, String)> =
        decks.iter().map(|(n, d)| (n.clone(), d.name.clone())).collect();
    assert_eq!(listing, vec![
        (String::from("main"), String::from("z")),
        (String::from("side"), String::from("y")),
    ]);
    assert!(matches!(
        log.get_state().get_player_decks(&ident("nobody")),
        Err(TournamentError::PlayerLookup)
    ));
}

#[test]
fn pairing_engine_dispatch() {
    let mut players = PlayerRegistry::new();
    assert!(players.add_player(PlayerId(1), String::from("A")).is_ok());
    assert!(players.add_player(PlayerId(2), String::from("B")).is_ok());
    let rounds = RoundRegistry::new(0, 3000);

    let mut sys = pairing_system_factory(&TournamentPreset::Swiss, 2);
    sys.ready_player(PlayerId(1));
    assert!(sys.pair(&players, &rounds).is_none());
    sys.ready_player(PlayerId(2));
    let groups = sys.pair(&players, &rounds).unwrap();
    assert_eq!(groups, vec![vec![PlayerId(1), PlayerId(2)]]);
    // The paired players left the ready list, so a second call finds nobody.
    assert!(sys.pair(&players, &rounds).is_none());
}

#[test]
fn status_labels() {
    assert_eq!(RoundStatus::Certified.describe(), "Certified");
    assert_eq!(TournamentError::InvalidBye.describe(), "byes require exactly one participant");
}
