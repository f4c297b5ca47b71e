//! Checks of the operation log itself: deterministic replay, slicing,
//! rollback, and two-log reconciliation.

use squire_lib::identifiers::{OpId, PlayerId, PlayerIdentifier};
use squire_lib::op_log::{OpLog, SyncError};
use squire_lib::operations::TournOp;
use squire_lib::tournament::{Tournament, TournamentPreset, TournamentStatus};

fn base() -> Tournament {
    Tournament::from_preset_with_id(
        7,
        String::from("cup"),
        TournamentPreset::Swiss,
        String::from("standard"),
    )
}

fn ident(name: &str) -> PlayerIdentifier {
    PlayerIdentifier::Name(String::from(name))
}

fn names(t: &Tournament) -> Vec<(String, u128)> {
    t.player_reg.players.iter().map(|p| (p.name.clone(), p.id.0)).collect()
}

/// Replaying one operation sequence twice yields identical states.
#[test]
fn replay_is_deterministic() {
    let mut log = OpLog::new(base());
    assert!(log.append_with_id(OpId(1), TournOp::Start()).is_ok());
    assert!(log.append_with_id(OpId(10), TournOp::RegisterPlayer(String::from("A"))).is_ok());
    assert!(log.append_with_id(OpId(20), TournOp::RegisterPlayer(String::from("B"))).is_ok());
    assert!(log.append_with_id(OpId(90), TournOp::GiveBye(ident("A"))).is_ok());
    let ops = log.slice(0, u64::MAX);
    let once = OpLog::replay_from(&base(), &ops);
    let twice = OpLog::replay_from(&base(), &ops);
    assert_eq!(names(&once), names(&twice));
    assert_eq!(once.status, twice.status);
    assert_eq!(once.round_reg.rounds.len(), twice.round_reg.rounds.len());
    assert_eq!(names(&once), names(log.get_state()));
}

#[test]
fn slice_clamps_bounds() {
    let mut log = OpLog::new(base());
    assert!(log.append_with_id(OpId(1), TournOp::Start()).is_ok());
    assert!(log.append_with_id(OpId(10), TournOp::RegisterPlayer(String::from("A"))).is_ok());
    assert!(log.append_with_id(OpId(20), TournOp::RegisterPlayer(String::from("B"))).is_ok());
    let mid = log.slice(1, 999);
    assert_eq!(mid.len(), 2);
    assert_eq!(mid[0].seq, 1);
    assert_eq!(mid[0].id.0, 10);
    assert_eq!(mid[1].seq, 2);
    let none = log.slice(7, 9);
    assert!(none.is_empty());
    let backwards = log.slice(2, 1);
    assert!(backwards.is_empty());
}

/// Rolling back to a prefix reproduces exactly the state of appending that
/// prefix from the initial state.
#[test]
fn rollback_replays_prefix() {
    let mut log = OpLog::new(base());
    assert!(log.append_with_id(OpId(1), TournOp::Start()).is_ok());
    assert!(log.append_with_id(OpId(10), TournOp::RegisterPlayer(String::from("A"))).is_ok());
    assert!(log.append_with_id(OpId(20), TournOp::RegisterPlayer(String::from("B"))).is_ok());
    assert!(log.append_with_id(OpId(90), TournOp::GiveBye(ident("B"))).is_ok());

    let mut fresh = OpLog::new(base());
    assert!(fresh.append_with_id(OpId(1), TournOp::Start()).is_ok());
    assert!(fresh.append_with_id(OpId(10), TournOp::RegisterPlayer(String::from("A"))).is_ok());

    assert!(log.rollback(1).is_ok());
    assert_eq!(log.len(), 2);
    assert_eq!(names(log.get_state()), names(fresh.get_state()));
    assert_eq!(log.get_state().round_reg.rounds.len(), 0);

    // Rolling back beyond the end is a no-op.
    assert!(log.rollback(100).is_ok());
    assert_eq!(log.len(), 2);

    // A negative bound truncates to nothing.
    assert!(log.rollback(-1).is_ok());
    assert_eq!(log.len(), 0);
    assert_eq!(log.get_state().status, TournamentStatus::Planned);
}

/// Syncing a log with an identical copy changes nothing and rejects
/// nothing.
#[test]
fn sync_with_identical_copy_is_noop() {
    let mut a = OpLog::new(base());
    let mut b = OpLog::new(base());
    for log in [&mut a, &mut b] {
        assert!(log.append_with_id(OpId(1), TournOp::Start()).is_ok());
        assert!(log.append_with_id(OpId(10), TournOp::RegisterPlayer(String::from("A"))).is_ok());
    }
    let rejected = a.sync(&b).unwrap();
    assert!(rejected.is_empty());
    assert_eq!(a.len(), 2);
    assert_eq!(names(a.get_state()), vec![(String::from("A"), 10)]);
}

/// Two divergent suffixes over a common prefix interleave
/// deterministically: same sequence number, lower operation id first.
#[test]
fn sync_merges_divergent_suffixes() {
    let mut a = OpLog::new(base());
    let mut b = OpLog::new(base());
    for log in [&mut a, &mut b] {
        assert!(log.append_with_id(OpId(1), TournOp::Start()).is_ok());
        assert!(log.append_with_id(OpId(10), TournOp::RegisterPlayer(String::from("A"))).is_ok());
    }
    assert!(a.append_with_id(OpId(20), TournOp::RegisterPlayer(String::from("B"))).is_ok());
    assert!(b.append_with_id(OpId(30), TournOp::RegisterPlayer(String::from("C"))).is_ok());
    let rejected = a.sync(&b).unwrap();
    assert!(rejected.is_empty());
    assert_eq!(a.len(), 4);
    assert_eq!(names(a.get_state()), vec![
        (String::from("A"), 10),
        (String::from("B"), 20),
        (String::from("C"), 30),
    ]);
    // The reconciled log is renumbered in order.
    let ops = a.slice(0, 99);
    for (i, op) in ops.iter().enumerate() {
        assert_eq!(op.seq, i as u64);
    }
}

/// A conflicting remote edit is skipped and surfaced, never silently
/// dropped, and never aborts the rest of the merge.
#[test]
fn sync_skips_and_reports_conflicts() {
    let mut a = OpLog::new(base());
    let mut b = OpLog::new(base());
    for log in [&mut a, &mut b] {
        assert!(log.append_with_id(OpId(1), TournOp::Start()).is_ok());
    }
    // Both sides register the same display name under different ids.
    assert!(a.append_with_id(OpId(20), TournOp::RegisterPlayer(String::from("B"))).is_ok());
    assert!(b.append_with_id(OpId(40), TournOp::RegisterPlayer(String::from("B"))).is_ok());
    assert!(b.append_with_id(OpId(50), TournOp::RegisterPlayer(String::from("C"))).is_ok());
    let rejected = a.sync(&b).unwrap();
    assert_eq!(rejected.len(), 1);
    assert_eq!(rejected[0].id.0, 40);
    assert_eq!(names(a.get_state()), vec![
        (String::from("B"), 20),
        (String::from("C"), 50),
    ]);
    assert_eq!(a.len(), 3);
}

#[test]
fn sync_rejects_foreign_tournament() {
    let mut a = OpLog::new(base());
    let other = OpLog::new(Tournament::from_preset_with_id(
        8,
        String::from("other"),
        TournamentPreset::Swiss,
        String::from("standard"),
    ));
    assert!(matches!(a.sync(&other), Err(SyncError::TournamentMismatch)));
    assert_eq!(a.len(), 0);
}

/// Appends with random ids still land in order and fold identically on
/// replay.
#[test]
fn append_draws_fresh_ids() {
    let mut log = OpLog::new(base());
    assert!(log.append(TournOp::Start()).is_ok());
    assert!(log.append(TournOp::RegisterPlayer(String::from("A"))).is_ok());
    assert_eq!(log.len(), 2);
    let ops = log.slice(0, 99);
    assert_eq!(ops[0].seq, 0);
    assert_eq!(ops[1].seq, 1);
    let replayed = OpLog::replay_from(&base(), &ops);
    assert_eq!(names(&replayed), names(log.get_state()));
}
