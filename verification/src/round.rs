//! A single round of play: its participants, reported results, confirmation
//! state, and certification. A round is `Certified` only once every
//! participant has confirmed, except for byes, which certify immediately with
//! their sole participant as winner.

use vstd::prelude::*;

use crate::error::TournamentError;
use crate::identifiers::{PlayerId, RoundId};

verus! {

/// The lifecycle of a round. `Open` and `Uncertified` move forward only;
/// `Dead` is a terminal override.
#[derive(Debug, Clone, Copy, PartialEq, Eq, Structural)]
pub enum RoundStatus {
    /// Play is in progress; no result reported yet.
    Open,
    /// At least one result is recorded, not yet confirmed by everyone.
    Uncertified,
    /// Every participant has confirmed (or the round is a bye).
    Certified,
    /// The round was cancelled; terminal.
    Dead,
}

impl RoundStatus {
    /// A short human-readable label for the status.
    pub fn describe(&self) -> (r: &'static str)
        ensures
            r@ == self.spec_describe(),
    {
        match self {
            RoundStatus::Open => "Open",
            RoundStatus::Uncertified => "Uncertified",
            RoundStatus::Certified => "Certified",
            RoundStatus::Dead => "Dead",
        }
    }

    /// The label that `describe` returns.
    pub open spec fn spec_describe(&self) -> Seq<char> {
        match self {
            RoundStatus::Open => "Open"@,
            RoundStatus::Uncertified => "Uncertified"@,
            RoundStatus::Certified => "Certified"@,
            RoundStatus::Dead => "Dead"@,
        }
    }
}

/// One reported outcome for a round: either a player's win count, or a draw.
#[derive(Debug, Clone, Copy, PartialEq, Eq, Hash, Structural)]
pub enum RoundResult {
    /// The named player won the given number of games.
    Wins(PlayerId, u8),
    /// The round was drawn.
    Draw(),
}

/// One round. Timing is kept as plain second counts; whoever owns a clock
/// passes elapsed time in (see `time_left`).
#[derive(Debug)]
pub struct Round {
    pub id: RoundId,
    pub match_number: u64,
    pub table_number: u64,
    pub players: Vec<PlayerId>,
    pub confirmations: Vec<PlayerId>,
    pub results: Vec<RoundResult>,
    pub status: RoundStatus,
    pub winner: Option<PlayerId>,
    pub length_secs: u64,
    pub extension_secs: u64,
    pub is_bye: bool,
}

/// The observable content of a `Round`. Every field is already a plain
/// value, so the view is the field tuple itself with vectors as sequences.
pub struct RoundView {
    pub id: RoundId,
    pub match_number: u64,
    pub table_number: u64,
    pub players: Seq<PlayerId>,
    pub confirmations: Seq<PlayerId>,
    pub results: Seq<RoundResult>,
    pub status: RoundStatus,
    pub winner: Option<PlayerId>,
    pub length_secs: u64,
    pub extension_secs: u64,
    pub is_bye: bool,
}

impl View for Round {
    type V = RoundView;

    open spec fn view(&self) -> RoundView {
        RoundView {
            id: self.id,
            match_number: self.match_number,
            table_number: self.table_number,
            players: self.players@,
            confirmations: self.confirmations@,
            results: self.results@,
            status: self.status,
            winner: self.winner,
            length_secs: self.length_secs,
            extension_secs: self.extension_secs,
            is_bye: self.is_bye,
        }
    }
}

/// No player id occurs twice in `s`.
pub open spec fn players_unique(s: Seq<PlayerId>) -> bool {
    forall|i: int, j: int| 0 <= i < j < s.len() ==> s[i] != s[j]
}

/// `s` with `p` appended unless it is already present.
pub open spec fn spec_set_insert(s: Seq<PlayerId>, p: PlayerId) -> Seq<PlayerId> {
    if s.contains(p) {
        s
    } else {
        s.push(p)
    }
}

/// `s` with the (unique) occurrence of `p` removed, unchanged if absent.
pub open spec fn spec_set_remove(s: Seq<PlayerId>, p: PlayerId) -> Seq<PlayerId> {
    if s.contains(p) {
        s.remove(s.index_of(p))
    } else {
        s
    }
}

/// Whether a reported result is acceptable for the given participants: a win
/// must name a participant; a draw always is.
pub open spec fn spec_verify_result(players: Seq<PlayerId>, result: RoundResult) -> bool {
    match result {
        RoundResult::Wins(p, _) => players.contains(p),
        RoundResult::Draw() => true,
    }
}

/// The winner a result designates: the named player for a win, nobody for a
/// draw. The most recently recorded result stands.
pub open spec fn spec_result_winner(result: RoundResult) -> Option<PlayerId> {
    match result {
        RoundResult::Wins(p, _) => Some(p),
        RoundResult::Draw() => None,
    }
}

impl RoundView {
    /// The round's internal invariant: participants and confirmations hold no
    /// duplicates, only participants confirm or win, and a bye has exactly
    /// one participant who is its winner.
    pub open spec fn wf(&self) -> bool {
        &&& players_unique(self.players)
        &&& players_unique(self.confirmations)
        &&& forall|i: int|
            0 <= i < self.confirmations.len() ==> self.players.contains(self.confirmations[i])
        &&& match self.winner {
            Some(w) => self.players.contains(w),
            None => true,
        }
        &&& self.is_bye ==> self.players.len() == 1 && self.winner == Some(self.players[0]) && (
        self.status == RoundStatus::Certified || self.status == RoundStatus::Dead)
    }
}

/// The certification law: when confirmations hold no duplicates and only
/// participants confirm, the confirmation count reaches the participant
/// count exactly when every participant has confirmed — so a round
/// certifies on the last distinct confirmation and not before.
pub proof fn lemma_certification(players: Seq<PlayerId>, confs: Seq<PlayerId>)
    requires
        players_unique(players),
        players_unique(confs),
        forall|i: int| 0 <= i < confs.len() ==> players.contains(#[trigger] confs[i]),
    ensures
        confs.len() == players.len() <==> (forall|q: PlayerId|
            players.contains(q) ==> confs.contains(q)),
{
    broadcast use vstd::seq_lib::seq_to_set_is_finite;

    assert forall|i: int, j: int|
        0 <= i < players.len() && 0 <= j < players.len() && i != j implies players[i]
        != players[j] by {
        if i < j {
            assert(players[i] != players[j]);
        } else {
            assert(players[j] != players[i]);
        }
    }
    assert forall|i: int, j: int|
        0 <= i < confs.len() && 0 <= j < confs.len() && i != j implies confs[i] != confs[j] by {
        if i < j {
            assert(confs[i] != confs[j]);
        } else {
            assert(confs[j] != confs[i]);
        }
    }
    players.unique_seq_to_set();
    confs.unique_seq_to_set();
    let sp = players.to_set();
    let sc = confs.to_set();
    assert(sc.subset_of(sp)) by {
        assert forall|q: PlayerId| sc.contains(q) implies sp.contains(q) by {
            assert(confs.contains(q));
            let i = confs.index_of(q);
            assert(players.contains(confs[i]));
        }
    }
    if confs.len() == players.len() {
        assert forall|q: PlayerId| players.contains(q) implies confs.contains(q) by {
            if !confs.contains(q) {
                sc.lemma_subset_not_in_lt(sp, q);
            }
        }
    }
    if forall|q: PlayerId| players.contains(q) ==> confs.contains(q) {
        assert(sp.subset_of(sc)) by {
            assert forall|q: PlayerId| sp.contains(q) implies sc.contains(q) by {
                assert(players.contains(q));
            }
        }
        vstd::set_lib::lemma_len_subset(sp, sc);
        vstd::set_lib::lemma_len_subset(sc, sp);
    }
}

/// Whether `v` holds the player id `p`.
pub fn vec_contains_player(v: &Vec<PlayerId>, p: PlayerId) -> (r: bool)
    ensures
        r == v@.contains(p),
{
    let mut i: usize = 0;
    while i < v.len()
        invariant
            i <= v.len(),
            forall|j: int| 0 <= j < i ==> v@[j] != p,
        decreases v.len() - i,
    {
        if v[i] == p {
            return true;
        }
        i += 1;
    }
    false
}

/// Inserts `p` unless present, keeping the no-duplicates invariant.
pub fn vec_set_insert(v: &mut Vec<PlayerId>, p: PlayerId)
    requires
        players_unique(old(v)@),
    ensures
        final(v)@ == spec_set_insert(old(v)@, p),
        players_unique(final(v)@),
{
    if !vec_contains_player(v, p) {
        let ghost s = v@;
        v.push(p);
        proof {
            assert forall|i: int, j: int| 0 <= i < j < v@.len() implies v@[i] != v@[j] by {
                if j < s.len() {
                    assert(s[i] != s[j]);
                } else {
                    assert(v@[j] == p);
                    assert(!s.contains(p));
                    assert(v@[i] == s[i]);
                }
            }
        }
    }
}

/// Removes `p` if present, keeping the no-duplicates invariant.
pub fn vec_set_remove(v: &mut Vec<PlayerId>, p: PlayerId)
    requires
        players_unique(old(v)@),
    ensures
        final(v)@ == spec_set_remove(old(v)@, p),
        players_unique(final(v)@),
{
    let ghost s = v@;
    let mut found: Option<usize> = None;
    let mut i: usize = 0;
    while found.is_none() && i < v.len()
        invariant
            v@ == s,
            players_unique(s),
            i <= s.len(),
            forall|j: int| 0 <= j < i ==> s[j] != p,
            match found {
                Some(idx) => idx < s.len() && s[idx as int] == p,
                None => true,
            },
        decreases
                s.len() - i,
                if found is None {
                    1int
                } else {
                    0int
                },
    {
        if v[i] == p {
            found = Some(i);
        } else {
            i += 1;
        }
    }
    match found {
        Some(idx) => {
            proof {
                assert(s[idx as int] == p);
                assert(s.contains(p)) by {
                    assert(s[idx as int] == p);
                }
                let k = s.index_of(p);
                assert(s[k] == p);
                if k < idx as int {
                    assert(s[k] != s[idx as int]);
                } else if (idx as int) < k {
                    assert(s[idx as int] != s[k]);
                }
                assert(k == idx as int);
            }
            v.remove(idx);
            proof {
                assert(v@ == s.remove(idx as int));
                assert forall|a: int, b: int| 0 <= a < b < v@.len() implies v@[a] != v@[b] by {
                    if b < idx as int {
                        assert(s[a] != s[b]);
                    } else if a < idx as int {
                        assert(s[a] != s[b + 1]);
                    } else {
                        assert(s[a + 1] != s[b + 1]);
                    }
                }
            }
        },
        None => {
            proof {
                assert(!s.contains(p));
            }
        },
    }
}

impl Round {
    /// The round's internal invariant, stated over its view.
    pub open spec fn wf(&self) -> bool {
        self@.wf()
    }

    /// A new, empty, open round.
    pub fn new(id: RoundId, match_number: u64, table_number: u64, length_secs: u64) -> (r: Round)
        ensures
            r@ == (RoundView {
                id,
                match_number,
                table_number,
                players: Seq::<PlayerId>::empty(),
                confirmations: Seq::<PlayerId>::empty(),
                results: Seq::<RoundResult>::empty(),
                status: RoundStatus::Open,
                winner: None::<PlayerId>,
                length_secs,
                extension_secs: 0u64,
                is_bye: false,
            }),
            r.wf(),
    {
        let r = Round {
            id,
            match_number,
            table_number,
            players: Vec::new(),
            confirmations: Vec::new(),
            results: Vec::new(),
            status: RoundStatus::Open,
            winner: None,
            length_secs,
            extension_secs: 0,
            is_bye: false,
        };
        proof {
            assert(r@.players =~= Seq::<PlayerId>::empty());
            assert(r@.confirmations =~= Seq::<PlayerId>::empty());
            assert(r@.results =~= Seq::<RoundResult>::empty());
        }
        r
    }

    /// The round's id.
    pub fn get_id(&self) -> (r: RoundId)
        ensures
            r == self.id,
    {
        self.id
    }

    /// Adds a participant; adding a player twice changes nothing. Byes are
    /// complete the moment they are recorded, so they take no new players.
    pub fn add_player(&mut self, player: PlayerId)
        requires
            old(self).wf(),
            !old(self)@.is_bye,
        ensures
            final(self)@ == (RoundView {
                players: spec_set_insert(old(self)@.players, player),
                ..old(self)@
            }),
            final(self).wf(),
    {
        if !vec_contains_player(&self.players, player) {
            let ghost s = self@.players;
            self.players.push(player);
            proof {
                assert forall|i: int, j: int|
                    0 <= i < j < self@.players.len() implies self@.players[i]
                    != self@.players[j] by {
                    if j < s.len() {
                        assert(s[i] != s[j]);
                    } else {
                        assert(self@.players[j] == player);
                        assert(s[i] == self@.players[i]);
                        assert(!s.contains(player));
                    }
                }
                match self@.winner {
                    Some(w) => {
                        assert(s.contains(w));
                        let k = s.index_of(w);
                        assert(self@.players[k] == w);
                        assert(self@.players.contains(w));
                    },
                    None => {},
                }
                assert forall|i: int|
                    0 <= i < self@.confirmations.len() implies self@.players.contains(
                    self@.confirmations[i],
                ) by {
                    assert(s.contains(self@.confirmations[i]));
                    let k = s.index_of(self@.confirmations[i]);
                    assert(self@.players[k] == self@.confirmations[i]);
                }
            }
        }
    }

    /// A copy of the participant list.
    pub fn get_all_players(&self) -> (r: Vec<PlayerId>)
        ensures
            r@ == self@.players,
    {
        let mut out: Vec<PlayerId> = Vec::new();
        let mut i: usize = 0;
        while i < self.players.len()
            invariant
                i <= self.players.len(),
                out@ == self.players@.take(i as int),
            decreases self.players.len() - i,
        {
            out.push(self.players[i]);
            proof {
                assert(out@ =~= self.players@.take(i as int + 1));
            }
            i += 1;
        }
        proof {
            assert(self.players@.take(self.players@.len() as int) =~= self.players@);
        }
        out
    }

    /// Whether a result may be recorded against this round's participants.
    pub fn verify_result(&self, result: &RoundResult) -> (r: bool)
        ensures
            r == spec_verify_result(self@.players, *result),
    {
        match result {
            RoundResult::Wins(p, _) => vec_contains_player(&self.players, *p),
            RoundResult::Draw() => true,
        }
    }

    /// Records a result. Only open or uncertified rounds accept results; a
    /// win must name a participant. The latest result decides the winner.
    pub fn record_result(&mut self, result: RoundResult) -> (r: Result<(), TournamentError>)
        requires
            old(self).wf(),
        ensures
            final(self).wf(),
            r is Ok <==> (old(self)@.status == RoundStatus::Open
                || old(self)@.status == RoundStatus::Uncertified) && spec_verify_result(
                old(self)@.players,
                result,
            ),
            r is Ok ==> final(self)@ == (RoundView {
                results: old(self)@.results.push(result),
                winner: spec_result_winner(result),
                status: RoundStatus::Uncertified,
                ..old(self)@
            }),
            r is Err ==> *final(self) == *old(self) && (r == Err::<(), TournamentError>(
                TournamentError::IncorrectStatus,
            ) || r == Err::<(), TournamentError>(TournamentError::PlayerNotInRound)),
            r == Err::<(), TournamentError>(TournamentError::IncorrectStatus) <==> !(old(
                self,
            )@.status == RoundStatus::Open || old(self)@.status == RoundStatus::Uncertified),
    {
        match self.status {
            RoundStatus::Open | RoundStatus::Uncertified => {
                if self.verify_result(&result) {
                    self.results.push(result);
                    self.winner = match result {
                        RoundResult::Wins(p, _) => Some(p),
                        RoundResult::Draw() => None,
                    };
                    self.status = RoundStatus::Uncertified;
                    Ok(())
                } else {
                    Err(TournamentError::PlayerNotInRound)
                }
            },
            _ => Err(TournamentError::IncorrectStatus),
        }
    }

    /// Confirms the round on behalf of `player`. The round certifies exactly
    /// when the last distinct participant confirms.
    pub fn confirm_round(&mut self, player: PlayerId) -> (r: Result<
        RoundStatus,
        TournamentError,
    >)
        requires
            old(self).wf(),
        ensures
            final(self).wf(),
            !old(self)@.players.contains(player) ==> r == Err::<RoundStatus, TournamentError>(
                TournamentError::PlayerNotInRound,
            ) && *final(self) == *old(self),
            old(self)@.status == RoundStatus::Dead && old(self)@.players.contains(player) ==> r
                == Err::<RoundStatus, TournamentError>(TournamentError::IncorrectStatus)
                && *final(self) == *old(self),
            old(self)@.status == RoundStatus::Certified && old(self)@.players.contains(player)
                ==> r == Ok::<RoundStatus, TournamentError>(RoundStatus::Certified) && *final(self)
                == *old(self),
            (old(self)@.status == RoundStatus::Open || old(self)@.status
                == RoundStatus::Uncertified) && old(self)@.players.contains(player) ==> {
                &&& final(self)@.confirmations == spec_set_insert(
                    old(self)@.confirmations,
                    player,
                )
                &&& final(self)@.status == (if spec_set_insert(
                    old(self)@.confirmations,
                    player,
                ).len() == old(self)@.players.len() {
                    RoundStatus::Certified
                } else {
                    old(self)@.status
                })
                &&& r == Ok::<RoundStatus, TournamentError>(
                    if final(self)@.status == RoundStatus::Certified {
                        RoundStatus::Certified
                    } else {
                        RoundStatus::Uncertified
                    },
                )
                &&& final(self)@ == (RoundView {
                    confirmations: final(self)@.confirmations,
                    status: final(self)@.status,
                    ..old(self)@
                })
            },
    {
        if !vec_contains_player(&self.players, player) {
            return Err(TournamentError::PlayerNotInRound);
        }
        match self.status {
            RoundStatus::Dead => Err(TournamentError::IncorrectStatus),
            RoundStatus::Certified => Ok(RoundStatus::Certified),
            _ => {
                if !vec_contains_player(&self.confirmations, player) {
                    self.confirmations.push(player);
                }
                if self.confirmations.len() == self.players.len() {
                    self.status = RoundStatus::Certified;
                    Ok(RoundStatus::Certified)
                } else {
                    Ok(RoundStatus::Uncertified)
                }
            },
        }
    }

    /// Cancels the round; terminal.
    pub fn kill_round(&mut self)
        requires
            old(self).wf(),
        ensures
            final(self)@ == (RoundView { status: RoundStatus::Dead, ..old(self)@ }),
            final(self).wf(),
    {
        self.status = RoundStatus::Dead;
    }

    /// Turns the round into a bye. Succeeds exactly when the round has one
    /// participant; the round is then certified with that participant as its
    /// winner.
    pub fn record_bye(&mut self) -> (r: Result<RoundId, TournamentError>)
        requires
            old(self).wf(),
        ensures
            final(self).wf(),
            r is Ok <==> old(self)@.players.len() == 1,
            r is Ok ==> r == Ok::<RoundId, TournamentError>(old(self)@.id),
            r is Err ==> r == Err::<RoundId, TournamentError>(TournamentError::InvalidBye)
                && *final(self) == *old(self),
            r is Ok ==> final(self)@ == (RoundView {
                is_bye: true,
                winner: Some(old(self)@.players[0]),
                status: RoundStatus::Certified,
                ..old(self)@
            }),
    {
        if self.players.len() != 1 {
            Err(TournamentError::InvalidBye)
        } else {
            self.is_bye = true;
            self.winner = Some(self.players[0]);
            self.status = RoundStatus::Certified;
            Ok(self.id)
        }
    }

    /// Discards every recorded result (and with them the provisional winner
    /// of a non-bye round).
    pub fn clear_results(&mut self)
        requires
            old(self).wf(),
        ensures
            final(self).wf(),
            final(self)@ == (RoundView {
                results: Seq::<RoundResult>::empty(),
                winner: if old(self)@.is_bye {
                    old(self)@.winner
                } else {
                    None
                },
                ..old(self)@
            }),
    {
        self.results.clear();
        if !self.is_bye {
            self.winner = None;
        }
        proof {
            assert(self@.results =~= Seq::<RoundResult>::empty());
        }
    }

    /// Whether the round is certified.
    pub fn is_certified(&self) -> (r: bool)
        ensures
            r == (self@.status == RoundStatus::Certified),
    {
        match self.status {
            RoundStatus::Certified => true,
            _ => false,
        }
    }

    /// Grants extra time, saturating at the maximum representable length.
    pub fn add_extension(&mut self, secs: u64)
        requires
            old(self).wf(),
        ensures
            final(self).wf(),
            final(self)@ == (RoundView {
                extension_secs: if old(self)@.extension_secs + secs <= u64::MAX {
                    (old(self)@.extension_secs + secs) as u64
                } else {
                    u64::MAX
                },
                ..old(self)@
            }),
    {
        self.extension_secs = self.extension_secs.saturating_add(secs);
    }

    /// How many seconds remain after `elapsed_secs` have passed, against the
    /// round's base length plus any extension; zero once time is up.
    pub fn time_left(&self, elapsed_secs: u64) -> (r: u64)
        ensures
            r == self@.spec_time_left(elapsed_secs),
    {
        let total = self.length_secs.saturating_add(self.extension_secs);
        if elapsed_secs > total {
            0
        } else {
            total - elapsed_secs
        }
    }
}

impl RoundView {
    /// Remaining time as a mathematical function of the view.
    pub open spec fn spec_time_left(&self, elapsed_secs: u64) -> u64 {
        let total: u64 = if self.length_secs + self.extension_secs <= u64::MAX {
            (self.length_secs + self.extension_secs) as u64
        } else {
            u64::MAX
        };
        if elapsed_secs > total {
            0u64
        } else {
            (total - elapsed_secs) as u64
        }
    }
}

} // verus!
