//! The set of rounds of a tournament, in creation order. Match numbers are
//! the creation indices, so a round can be found by id or by number.

use vstd::prelude::*;

use crate::error::TournamentError;
use crate::identifiers::{PlayerId, RoundId, RoundIdentView, RoundIdentifier};
use crate::round::{
    spec_result_winner, spec_set_insert, spec_verify_result, Round, RoundResult, RoundStatus,
    RoundView,
};

verus! {

/// All rounds, plus the table-numbering base and the default round length
/// handed to new rounds.
#[derive(Debug)]
pub struct RoundRegistry {
    pub rounds: Vec<Round>,
    pub starting_table: u64,
    pub length_secs: u64,
}

/// The observable content of a `RoundRegistry`.
pub struct RoundRegistryView {
    pub rounds: Seq<RoundView>,
    pub starting_table: u64,
    pub length_secs: u64,
}

impl View for RoundRegistry {
    type V = RoundRegistryView;

    open spec fn view(&self) -> RoundRegistryView {
        RoundRegistryView {
            rounds: self.rounds@.map_values(|r: Round| r@),
            starting_table: self.starting_table,
            length_secs: self.length_secs,
        }
    }
}

/// Whether some round in `s` has id `id`.
pub open spec fn rr_has_id(s: Seq<RoundView>, id: RoundId) -> bool {
    exists|i: int| 0 <= i < s.len() && s[i].id == id
}

/// The index of the round with id `id`; unique under `rounds_wf`.
pub open spec fn rr_id_index(s: Seq<RoundView>, id: RoundId) -> int {
    choose|i: int| 0 <= i < s.len() && s[i].id == id
}

/// The registry's invariant: well-formed rounds, unique ids, and each
/// round's match number equal to its creation index.
pub open spec fn rounds_wf(s: Seq<RoundView>) -> bool {
    &&& forall|i: int| 0 <= i < s.len() ==> (#[trigger] s[i]).wf()
    &&& forall|i: int, j: int| 0 <= i < j < s.len() ==> s[i].id != s[j].id
    &&& forall|i: int| 0 <= i < s.len() ==> (#[trigger] s[i]).match_number == i
}

/// Resolution of a round identifier: ids are searched; a match number is an
/// index by the `rounds_wf` numbering.
pub open spec fn spec_resolve_round(s: Seq<RoundView>, ident: RoundIdentView) -> Option<int> {
    match ident {
        RoundIdentView::Id(id) => if rr_has_id(s, RoundId(id)) {
            Some(rr_id_index(s, RoundId(id)))
        } else {
            None
        },
        RoundIdentView::Number(n) => if n < s.len() {
            Some(n as int)
        } else {
            None
        },
    }
}

/// Whether round `r` is still in play (open or uncertified) with `p` at the
/// table.
pub open spec fn spec_round_active_for(r: RoundView, p: PlayerId) -> bool {
    (r.status == RoundStatus::Open || r.status == RoundStatus::Uncertified) && r.players.contains(
        p,
    )
}

/// The most recent round still in play that `p` sits in, looking only at the
/// first `n` rounds.
pub open spec fn spec_active_round_upto(s: Seq<RoundView>, p: PlayerId, n: int) -> Option<int>
    decreases n,
{
    if n <= 0 {
        None
    } else if spec_round_active_for(s[n - 1], p) {
        Some(n - 1)
    } else {
        spec_active_round_upto(s, p, n - 1)
    }
}

/// The most recent round still in play that `p` sits in.
pub open spec fn spec_active_round(s: Seq<RoundView>, p: PlayerId) -> Option<int> {
    spec_active_round_upto(s, p, s.len() as int)
}

/// Under `rounds_wf`, an index with a matching id is the id's index.
pub proof fn lemma_round_id_index_unique(s: Seq<RoundView>, id: RoundId, i: int)
    requires
        rounds_wf(s),
        0 <= i < s.len(),
        s[i].id == id,
    ensures
        rr_has_id(s, id),
        rr_id_index(s, id) == i,
{
    assert(rr_has_id(s, id));
    let k = rr_id_index(s, id);
    assert(0 <= k < s.len() && s[k].id == id);
    if k < i {
        assert(s[k].id != s[i].id);
    } else if i < k {
        assert(s[i].id != s[k].id);
    }
}

/// Replacing one round with a well-formed round of the same id and match
/// number keeps the registry well-formed.
pub proof fn lemma_rounds_wf_update(s: Seq<RoundView>, i: int, r: RoundView)
    requires
        rounds_wf(s),
        0 <= i < s.len(),
        r.id == s[i].id,
        r.match_number == s[i].match_number,
        r.wf(),
    ensures
        rounds_wf(s.update(i, r)),
{
    let t = s.update(i, r);
    assert forall|a: int| 0 <= a < t.len() implies (#[trigger] t[a]).wf() by {
        if a != i {
            assert(t[a] == s[a]);
            assert(s[a].wf());
        }
    }
    assert forall|a: int, b: int| 0 <= a < b < t.len() implies t[a].id != t[b].id by {
        assert(s[a].id != s[b].id);
    }
    assert forall|a: int| 0 <= a < t.len() implies (#[trigger] t[a]).match_number == a by {
        assert(s[a].match_number == a);
    }
}

impl RoundRegistry {
    /// The registry's invariant, stated over its view.
    pub open spec fn wf(&self) -> bool {
        rounds_wf(self@.rounds)
    }

    /// An empty registry with the given table base and round length.
    pub fn new(starting_table: u64, length_secs: u64) -> (r: RoundRegistry)
        ensures
            r@.rounds == Seq::<RoundView>::empty(),
            r@.starting_table == starting_table,
            r@.length_secs == length_secs,
            r.wf(),
    {
        let r = RoundRegistry { rounds: Vec::new(), starting_table, length_secs };
        proof {
            assert(r@.rounds =~= Seq::<RoundView>::empty());
        }
        r
    }

    /// How many rounds exist.
    pub fn len(&self) -> (r: usize)
        ensures
            r == self@.rounds.len(),
    {
        self.rounds.len()
    }

    /// Creates a new empty round under the given id. Fails with
    /// `RoundLookup` when the id is already taken; nothing changes then.
    pub fn create_round(&mut self, id: RoundId) -> (r: Result<usize, TournamentError>)
        requires
            old(self).wf(),
        ensures
            final(self).wf(),
            r is Ok <==> !rr_has_id(old(self)@.rounds, id),
            r is Ok ==> r == Ok::<usize, TournamentError>(
                (final(self)@.rounds.len() - 1) as usize,
            ),
            r is Err ==> r == Err::<usize, TournamentError>(TournamentError::RoundLookup)
                && *final(self) == *old(self),
            r is Ok ==> final(self)@.rounds == old(self)@.rounds.push(
                RoundView {
                    id,
                    match_number: old(self)@.rounds.len() as u64,
                    table_number: if old(self)@.starting_table + old(self)@.rounds.len()
                        <= u64::MAX {
                        (old(self)@.starting_table + old(self)@.rounds.len()) as u64
                    } else {
                        u64::MAX
                    },
                    players: Seq::<PlayerId>::empty(),
                    confirmations: Seq::<PlayerId>::empty(),
                    results: Seq::<crate::round::RoundResult>::empty(),
                    status: RoundStatus::Open,
                    winner: None::<PlayerId>,
                    length_secs: old(self)@.length_secs,
                    extension_secs: 0u64,
                    is_bye: false,
                },
            ) && final(self)@.starting_table == old(self)@.starting_table
                && final(self)@.length_secs == old(self)@.length_secs,
    {
        let mut i: usize = 0;
        while i < self.rounds.len()
            invariant
                *self == *old(self),
                self.wf(),
                i <= self@.rounds.len(),
                forall|j: int| 0 <= j < i ==> (#[trigger] self@.rounds[j]).id != id,
            decreases self@.rounds.len() - i,
        {
            if self.rounds[i].id == id {
                proof {
                    lemma_round_id_index_unique(self@.rounds, id, i as int);
                }
                return Err(TournamentError::RoundLookup);
            }
            i += 1;
        }
        proof {
            assert(!rr_has_id(self@.rounds, id));
        }
        let ghost s = self@.rounds;
        let match_number = self.rounds.len() as u64;
        let table_number = self.starting_table.saturating_add(match_number);
        let round = Round::new(id, match_number, table_number, self.length_secs);
        let ghost rv = round@;
        let idx = self.rounds.len();
        self.rounds.push(round);
        proof {
            assert(self@.rounds =~= s.push(rv));
            assert forall|a: int| 0 <= a < self@.rounds.len() implies (
            #[trigger] self@.rounds[a]).wf() by {
                if a < s.len() {
                    assert(s[a].wf());
                }
            }
            assert forall|a: int, b: int| 0 <= a < b < self@.rounds.len() implies self@.rounds[a].id
                != self@.rounds[b].id by {
                if b < s.len() {
                    assert(s[a].id != s[b].id);
                } else {
                    assert(self@.rounds[b].id == id);
                    assert(s[a].id != id);
                }
            }
            assert forall|a: int| 0 <= a < self@.rounds.len() implies (
            #[trigger] self@.rounds[a]).match_number == a by {
                if a < s.len() {
                    assert(s[a].match_number == a);
                }
            }
        }
        Ok(idx)
    }

    /// The index of the round the identifier names, if any.
    pub fn round_index(&self, ident: &RoundIdentifier) -> (r: Option<usize>)
        requires
            self.wf(),
        ensures
            match r {
                Some(i) => i < self@.rounds.len() && spec_resolve_round(self@.rounds, ident@)
                    == Some(i as int),
                None => spec_resolve_round(self@.rounds, ident@) is None,
            },
    {
        match ident {
            RoundIdentifier::Number(n) => {
                if *n < self.rounds.len() as u64 {
                    Some(*n as usize)
                } else {
                    None
                }
            },
            RoundIdentifier::Id(id) => {
                let mut i: usize = 0;
                while i < self.rounds.len()
                    invariant
                        self.wf(),
                        *ident == RoundIdentifier::Id(*id),
                        i <= self@.rounds.len(),
                        forall|j: int| 0 <= j < i ==> (#[trigger] self@.rounds[j]).id != id,
                    decreases self@.rounds.len() - i,
                {
                    if self.rounds[i].id == *id {
                        proof {
                            lemma_round_id_index_unique(self@.rounds, *id, i as int);
                        }
                        return Some(i);
                    }
                    i += 1;
                }
                proof {
                    assert(!rr_has_id(self@.rounds, *id));
                }
                None
            },
        }
    }

    /// A borrow of the round the identifier names, if any.
    pub fn get_round(&self, ident: &RoundIdentifier) -> (r: Option<&Round>)
        requires
            self.wf(),
        ensures
            match r {
                Some(rd) => spec_resolve_round(self@.rounds, ident@) is Some && rd@
                    == self@.rounds[spec_resolve_round(self@.rounds, ident@).unwrap()],
                None => spec_resolve_round(self@.rounds, ident@) is None,
            },
    {
        match self.round_index(ident) {
            Some(i) => Some(&self.rounds[i]),
            None => None,
        }
    }

    /// The index of the most recent round still in play that `p` sits in.
    pub fn active_round_index(&self, p: PlayerId) -> (r: Option<usize>)
        requires
            self.wf(),
        ensures
            match r {
                Some(i) => spec_active_round(self@.rounds, p) == Some(i as int) && i
                    < self@.rounds.len(),
                None => spec_active_round(self@.rounds, p) is None,
            },
    {
        let mut n: usize = self.rounds.len();
        while n > 0
            invariant
                self.wf(),
                n <= self@.rounds.len(),
                spec_active_round(self@.rounds, p) == spec_active_round_upto(
                    self@.rounds,
                    p,
                    n as int,
                ),
            decreases n,
        {
            let i = n - 1;
            let active = match self.rounds[i].status {
                RoundStatus::Open | RoundStatus::Uncertified => true,
                _ => false,
            };
            if active && crate::round::vec_contains_player(&self.rounds[i].players, p) {
                proof {
                    assert(spec_round_active_for(self@.rounds[i as int], p));
                }
                return Some(i);
            }
            proof {
                assert(!spec_round_active_for(self@.rounds[n - 1], p));
            }
            n = i;
        }
        None
    }
}


/// A resolved active round is really active and holds the player.
pub proof fn lemma_active_round_props(s: Seq<RoundView>, p: PlayerId, n: int)
    requires
        0 <= n <= s.len(),
    ensures
        match spec_active_round_upto(s, p, n) {
            Some(i) => 0 <= i < n && spec_round_active_for(s[i], p),
            None => true,
        },
    decreases n,
{
    if n <= 0 {
    } else if spec_round_active_for(s[n - 1], p) {
    } else {
        lemma_active_round_props(s, p, n - 1);
    }
}

/// The first `n` entries of `ps` with duplicates dropped, in order.
pub open spec fn spec_distinct_upto(ps: Seq<PlayerId>, n: int) -> Seq<PlayerId>
    decreases n,
{
    if n <= 0 {
        Seq::empty()
    } else {
        spec_set_insert(spec_distinct_upto(ps, n - 1), ps[n - 1])
    }
}

/// `ps` with duplicates dropped, in order of first occurrence.
pub open spec fn spec_distinct(ps: Seq<PlayerId>) -> Seq<PlayerId> {
    spec_distinct_upto(ps, ps.len() as int)
}

/// The registry after a result lands on the named round, with the outcome.
pub open spec fn spec_rr_record(
    s: Seq<RoundView>,
    ident: RoundIdentView,
    result: RoundResult,
) -> (Seq<RoundView>, Result<(), TournamentError>) {
    match spec_resolve_round(s, ident) {
        None => (s, Err(TournamentError::RoundLookup)),
        Some(i) => {
            let r = s[i];
            if !(r.status == RoundStatus::Open || r.status == RoundStatus::Uncertified) {
                (s, Err(TournamentError::IncorrectStatus))
            } else if !spec_verify_result(r.players, result) {
                (s, Err(TournamentError::PlayerNotInRound))
            } else {
                (
                    s.update(
                        i,
                        RoundView {
                            results: r.results.push(result),
                            winner: spec_result_winner(result),
                            status: RoundStatus::Uncertified,
                            ..r
                        },
                    ),
                    Ok(()),
                )
            }
        },
    }
}

/// The registry after `p` confirms their active round, with the outcome.
pub open spec fn spec_rr_confirm(s: Seq<RoundView>, p: PlayerId) -> (
    Seq<RoundView>,
    Result<RoundStatus, TournamentError>,
) {
    match spec_active_round(s, p) {
        None => (s, Err(TournamentError::RoundLookup)),
        Some(i) => {
            let r = s[i];
            let confs = spec_set_insert(r.confirmations, p);
            let st = if confs.len() == r.players.len() {
                RoundStatus::Certified
            } else {
                r.status
            };
            (
                s.update(i, RoundView { confirmations: confs, status: st, ..r }),
                Ok(
                    if st == RoundStatus::Certified {
                        RoundStatus::Certified
                    } else {
                        RoundStatus::Uncertified
                    },
                ),
            )
        },
    }
}

/// The registry after the named round gains extra seconds.
pub open spec fn spec_rr_extend(s: Seq<RoundView>, ident: RoundIdentView, secs: u64) -> (
    Seq<RoundView>,
    Result<(), TournamentError>,
) {
    match spec_resolve_round(s, ident) {
        None => (s, Err(TournamentError::RoundLookup)),
        Some(i) => {
            let r = s[i];
            let ext: u64 = if r.extension_secs + secs <= u64::MAX {
                (r.extension_secs + secs) as u64
            } else {
                u64::MAX
            };
            (s.update(i, RoundView { extension_secs: ext, ..r }), Ok(()))
        },
    }
}

/// The round view a creation under `id` appends, holding the distinct
/// members of `ps`.
pub open spec fn spec_new_round_view(
    rr: RoundRegistryView,
    id: RoundId,
    ps: Seq<PlayerId>,
) -> RoundView {
    RoundView {
        id,
        match_number: rr.rounds.len() as u64,
        table_number: if rr.starting_table + rr.rounds.len() <= u64::MAX {
            (rr.starting_table + rr.rounds.len()) as u64
        } else {
            u64::MAX
        },
        players: spec_distinct(ps),
        confirmations: Seq::empty(),
        results: Seq::empty(),
        status: RoundStatus::Open,
        winner: None,
        length_secs: rr.length_secs,
        extension_secs: 0u64,
        is_bye: false,
    }
}

/// The registry after a round is created with the given members.
pub open spec fn spec_rr_create_with(rr: RoundRegistryView, id: RoundId, ps: Seq<PlayerId>) -> (
    Seq<RoundView>,
    Result<int, TournamentError>,
) {
    if rr_has_id(rr.rounds, id) {
        (rr.rounds, Err(TournamentError::RoundLookup))
    } else {
        (rr.rounds.push(spec_new_round_view(rr, id, ps)), Ok(rr.rounds.len() as int))
    }
}

/// The registry after the round at `i` becomes a bye, with the outcome.
pub open spec fn spec_rr_bye(s: Seq<RoundView>, i: int) -> (
    Seq<RoundView>,
    Result<RoundId, TournamentError>,
) {
    let r = s[i];
    if r.players.len() == 1 {
        (
            s.update(
                i,
                RoundView {
                    is_bye: true,
                    winner: Some(r.players[0]),
                    status: RoundStatus::Certified,
                    ..r
                },
            ),
            Ok(r.id),
        )
    } else {
        (s, Err(TournamentError::InvalidBye))
    }
}

impl RoundRegistry {
    /// Records a result against the named round.
    pub fn record_result(&mut self, ident: &RoundIdentifier, result: RoundResult) -> (r: Result<
        (),
        TournamentError,
    >)
        requires
            old(self).wf(),
        ensures
            final(self).wf(),
            (final(self)@.rounds, r) == spec_rr_record(old(self)@.rounds, ident@, result),
            final(self)@.starting_table == old(self)@.starting_table,
            final(self)@.length_secs == old(self)@.length_secs,
    {
        match self.round_index(ident) {
            None => Err(TournamentError::RoundLookup),
            Some(i) => {
                let ghost s = self@.rounds;
                let ghost ev = self.rounds@[i as int]@;
                proof {
                    assert(ev == s[i as int]);
                }
                let rd = &mut self.rounds[i];
                let res = rd.record_result(result);
                match res {
                    Ok(()) => {
                        proof {
                            let rv = RoundView {
                                results: ev.results.push(result),
                                winner: spec_result_winner(result),
                                status: RoundStatus::Uncertified,
                                ..ev
                            };
                            assert(self@.rounds =~= s.update(i as int, rv));
                            lemma_rounds_wf_update(s, i as int, rv);
                        }
                        Ok(())
                    },
                    Err(e) => {
                        proof {
                            assert(self@.rounds =~= s);
                        }
                        Err(e)
                    },
                }
            },
        }
    }

    /// Confirms the active round of `p`; fails with `RoundLookup` when `p`
    /// has no round still in play.
    pub fn confirm_player(&mut self, p: PlayerId) -> (r: Result<RoundStatus, TournamentError>)
        requires
            old(self).wf(),
        ensures
            final(self).wf(),
            (final(self)@.rounds, r) == spec_rr_confirm(old(self)@.rounds, p),
            final(self)@.starting_table == old(self)@.starting_table,
            final(self)@.length_secs == old(self)@.length_secs,
    {
        match self.active_round_index(p) {
            None => Err(TournamentError::RoundLookup),
            Some(i) => {
                let ghost s = self@.rounds;
                let ghost ev = self.rounds@[i as int]@;
                proof {
                    assert(ev == s[i as int]);
                    lemma_active_round_props(s, p, s.len() as int);
                    assert(spec_round_active_for(ev, p));
                }
                let rd = &mut self.rounds[i];
                let res = rd.confirm_round(p);
                match res {
                    Ok(st) => {
                        proof {
                            let confs = spec_set_insert(ev.confirmations, p);
                            let stv = if confs.len() == ev.players.len() {
                                RoundStatus::Certified
                            } else {
                                ev.status
                            };
                            let rv = RoundView { confirmations: confs, status: stv, ..ev };
                            assert(self@.rounds =~= s.update(i as int, rv));
                            lemma_rounds_wf_update(s, i as int, rv);
                        }
                        Ok(st)
                    },
                    Err(e) => {
                        proof {
                            assert(false);
                        }
                        Err(e)
                    },
                }
            },
        }
    }

    /// Grants the named round extra seconds.
    pub fn add_extension(&mut self, ident: &RoundIdentifier, secs: u64) -> (r: Result<
        (),
        TournamentError,
    >)
        requires
            old(self).wf(),
        ensures
            final(self).wf(),
            (final(self)@.rounds, r) == spec_rr_extend(old(self)@.rounds, ident@, secs),
            final(self)@.starting_table == old(self)@.starting_table,
            final(self)@.length_secs == old(self)@.length_secs,
    {
        match self.round_index(ident) {
            None => Err(TournamentError::RoundLookup),
            Some(i) => {
                let ghost s = self@.rounds;
                let ghost ev = self.rounds@[i as int]@;
                proof {
                    assert(ev == s[i as int]);
                }
                let rd = &mut self.rounds[i];
                rd.add_extension(secs);
                proof {
                    let ext: u64 = if ev.extension_secs + secs <= u64::MAX {
                        (ev.extension_secs + secs) as u64
                    } else {
                        u64::MAX
                    };
                    let rv = RoundView { extension_secs: ext, ..ev };
                    assert(self@.rounds =~= s.update(i as int, rv));
                    lemma_rounds_wf_update(s, i as int, rv);
                }
                Ok(())
            },
        }
    }

    /// Creates a round under `id` holding the distinct members of `players`.
    pub fn create_round_with(&mut self, id: RoundId, players: &Vec<PlayerId>) -> (r: Result<
        usize,
        TournamentError,
    >)
        requires
            old(self).wf(),
        ensures
            final(self).wf(),
            ({
                let (rs, res) = spec_rr_create_with(old(self)@, id, players@);
                final(self)@.rounds == rs && (match (r, res) {
                    (Ok(i), Ok(j)) => i == j,
                    (Err(a), Err(b)) => a == b,
                    _ => false,
                })
            }),
            final(self)@.starting_table == old(self)@.starting_table,
            final(self)@.length_secs == old(self)@.length_secs,
    {
        let res = self.create_round(id);
        let idx = match res {
            Ok(i) => i,
            Err(e) => {
                return Err(e);
            },
        };
        let n = self.rounds.len();
        let ghost base = self@.rounds;
        let ghost rr0 = old(self)@;
        proof {
            assert(res is Ok);
            assert(!rr_has_id(rr0.rounds, id));
            assert(base.len() == n as int);
            assert(res == Ok::<usize, TournamentError>((base.len() - 1) as usize));
            assert(idx == base.len() - 1);
            assert(base.update(idx as int, base[idx as int]) =~= base);
            assert(spec_distinct_upto(players@, 0) =~= Seq::<PlayerId>::empty());
            assert(base[idx as int].players =~= Seq::<PlayerId>::empty());
        }
        let mut i: usize = 0;
        while i < players.len()
            invariant
                self.wf(),
                idx == base.len() - 1,
                i <= players@.len(),
                self@.rounds.len() == base.len(),
                self@.starting_table == rr0.starting_table,
                self@.length_secs == rr0.length_secs,
                self@.rounds =~= base.update(
                    idx as int,
                    RoundView {
                        players: spec_distinct_upto(players@, i as int),
                        ..base[idx as int]
                    },
                ),
                !base[idx as int].is_bye,
            decreases players@.len() - i,
        {
            let ghost s = self@.rounds;
            let ghost ev = self.rounds@[idx as int]@;
            proof {
                assert(ev == s[idx as int]);
            }
            let rd = &mut self.rounds[idx];
            rd.add_player(players[i]);
            proof {
                let rv = RoundView {
                    players: spec_set_insert(ev.players, players@[i as int]),
                    ..ev
                };
                assert(self@.rounds =~= s.update(idx as int, rv));
                lemma_rounds_wf_update(s, idx as int, rv);
                assert(self@.rounds =~= base.update(
                    idx as int,
                    RoundView {
                        players: spec_distinct_upto(players@, i as int + 1),
                        ..base[idx as int]
                    },
                ));
            }
            i += 1;
        }
        proof {
            assert(self@.rounds =~= old(self)@.rounds.push(
                spec_new_round_view(old(self)@, id, players@),
            ));
        }
        Ok(idx)
    }

    /// Turns the round at `idx` into a bye.
    pub fn record_bye_at(&mut self, idx: usize) -> (r: Result<RoundId, TournamentError>)
        requires
            old(self).wf(),
            idx < old(self)@.rounds.len(),
        ensures
            final(self).wf(),
            (final(self)@.rounds, r) == spec_rr_bye(old(self)@.rounds, idx as int),
            final(self)@.starting_table == old(self)@.starting_table,
            final(self)@.length_secs == old(self)@.length_secs,
    {
        let ghost s = self@.rounds;
        let ghost ev = self.rounds@[idx as int]@;
        proof {
            assert(ev == s[idx as int]);
        }
        let rd = &mut self.rounds[idx];
        let res = rd.record_bye();
        match res {
            Ok(rid) => {
                proof {
                    let rv = RoundView {
                        is_bye: true,
                        winner: Some(ev.players[0]),
                        status: RoundStatus::Certified,
                        ..ev
                    };
                    assert(self@.rounds =~= s.update(idx as int, rv));
                    lemma_rounds_wf_update(s, idx as int, rv);
                }
                Ok(rid)
            },
            Err(e) => {
                proof {
                    assert(self@.rounds =~= s);
                }
                Err(e)
            },
        }
    }
}


impl Clone for RoundRegistry {
    /// A deep copy with the same observable content.
    fn clone(&self) -> (r: Self)
        ensures
            r@ == self@,
    {
        let mut rounds: Vec<Round> = Vec::new();
        let mut i: usize = 0;
        while i < self.rounds.len()
            invariant
                i <= self.rounds@.len(),
                rounds@.map_values(|rd: Round| rd@) == self.rounds@.map_values(
                    |rd: Round| rd@,
                ).take(i as int),
            decreases self.rounds@.len() - i,
        {
            let ghost prev = rounds@;
            let c = self.rounds[i].clone();
            rounds.push(c);
            proof {
                let f = |rd: Round| rd@;
                assert(prev.map_values(f).len() == prev.len());
                assert(self.rounds@.map_values(f).len() == self.rounds@.len());
                assert(prev.len() == i as int);
                assert(rounds@ == prev.push(c));
                assert forall|j: int| 0 <= j < i as int + 1 implies rounds@.map_values(f)[j]
                    == self.rounds@.map_values(f).take(i as int + 1)[j] by {
                    if j < i as int {
                        assert(rounds@[j] == prev[j]);
                        assert(prev.map_values(f)[j] == self.rounds@.map_values(f)[j]);
                    } else {
                        assert(rounds@[j] == c);
                    }
                }
                assert(rounds@.map_values(f) =~= self.rounds@.map_values(f).take(i as int + 1));
            }
            i += 1;
        }
        proof {
            let f = |rd: Round| rd@;
            assert(self.rounds@.map_values(f).take(self.rounds@.len() as int)
                =~= self.rounds@.map_values(f));
        }
        RoundRegistry {
            rounds,
            starting_table: self.starting_table,
            length_secs: self.length_secs,
        }
    }
}

} // verus!
