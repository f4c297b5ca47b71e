//! Swiss pairing: batch pairing on demand. Eligible ready players are
//! grouped, in readiness order, into tables of the configured size so that
//! no two players of one new group have ever shared a round; players who
//! cannot be grouped without a repeat are carried over to a later pass.

use vstd::prelude::*;

use crate::identifiers::{PlayerId, PlayerIdentifier};
use crate::player::PlayerStatus;
use crate::player_registry::{reg_has_id, reg_id_index, PlayerRegistry};
use crate::round::{players_unique, spec_set_insert, spec_set_remove, vec_set_insert,
    vec_set_remove};
use crate::round_registry::RoundRegistry;
use crate::round::RoundView;
use crate::settings::SwissPairingsSetting;

verus! {

/// Whether `p` and `q` have ever sat in one round together.
pub open spec fn spec_played_together(rounds: Seq<RoundView>, p: PlayerId, q: PlayerId) -> bool {
    exists|i: int|
        0 <= i < rounds.len() && (#[trigger] rounds[i]).players.contains(p)
            && rounds[i].players.contains(q)
}

/// Whether `cand` has ever shared a round with some member of `group`.
pub open spec fn spec_conflicts(
    rounds: Seq<RoundView>,
    group: Seq<PlayerId>,
    cand: PlayerId,
) -> bool {
    exists|i: int|
        0 <= i < group.len() && spec_played_together(rounds, #[trigger] group[i], cand)
}

/// Whether the player may be paired: known to the roster and not dropped.
pub open spec fn spec_can_play(
    players: Seq<crate::player::PlayerView>,
    p: PlayerId,
) -> bool {
    reg_has_id(players, p.0) && players[reg_id_index(players, p.0)].status
        != PlayerStatus::Dropped
}

/// The ready players who may actually be paired, in readiness order.
pub open spec fn spec_eligible(
    ready: Seq<PlayerId>,
    players: Seq<crate::player::PlayerView>,
) -> Seq<PlayerId>
    decreases ready.len(),
{
    if ready.len() == 0 {
        Seq::empty()
    } else {
        let rest = spec_eligible(ready.drop_first(), players);
        if spec_can_play(players, ready[0]) {
            seq![ready[0]] + rest
        } else {
            rest
        }
    }
}

/// One greedy scan: each pool player in turn joins the group if the group
/// still has room and the player conflicts with none of its members;
/// otherwise the player is passed over. Returns the grown group and the
/// passed-over players in order.
pub open spec fn spec_fill(
    rounds: Seq<RoundView>,
    pool: Seq<PlayerId>,
    group: Seq<PlayerId>,
    size: u8,
) -> (Seq<PlayerId>, Seq<PlayerId>)
    decreases pool.len(),
{
    if pool.len() == 0 {
        (group, Seq::empty())
    } else {
        let x = pool[0];
        if group.len() < size && !spec_conflicts(rounds, group, x) {
            spec_fill(rounds, pool.drop_first(), group.push(x), size)
        } else {
            let (g, r) = spec_fill(rounds, pool.drop_first(), group, size);
            (g, seq![x] + r)
        }
    }
}

/// The scan never loses a player: group and rest together hold exactly the
/// players that went in.
pub proof fn lemma_fill_len(
    rounds: Seq<RoundView>,
    pool: Seq<PlayerId>,
    group: Seq<PlayerId>,
    size: u8,
)
    ensures
        spec_fill(rounds, pool, group, size).0.len() + spec_fill(rounds, pool, group, size).1.len()
            == pool.len() + group.len(),
        spec_fill(rounds, pool, group, size).0.len() >= group.len(),
    decreases pool.len(),
{
    if pool.len() == 0 {
    } else {
        let x = pool[0];
        if group.len() < size && !spec_conflicts(rounds, group, x) {
            lemma_fill_len(rounds, pool.drop_first(), group.push(x), size);
        } else {
            lemma_fill_len(rounds, pool.drop_first(), group, size);
        }
    }
}

/// Repeated greedy grouping: seed a group with the first pool player, fill
/// it by one scan, and emit it if full; a seed whose group cannot be filled
/// is carried over. Returns the groups and the carried-over players.
pub open spec fn spec_swiss_groups(
    rounds: Seq<RoundView>,
    pool: Seq<PlayerId>,
    size: u8,
) -> (Seq<Seq<PlayerId>>, Seq<PlayerId>)
    decreases pool.len(),
    via spec_swiss_groups_decreases
{
    if size == 0 || pool.len() < size {
        (Seq::empty(), pool)
    } else {
        let seed = pool[0];
        let (g, rest) = spec_fill(rounds, pool.drop_first(), seq![seed], size);
        if g.len() == size {
            let (gs, lo) = spec_swiss_groups(rounds, rest, size);
            (seq![g] + gs, lo)
        } else {
            let (gs, lo) = spec_swiss_groups(rounds, pool.drop_first(), size);
            (gs, seq![seed] + lo)
        }
    }
}

#[via_fn]
proof fn spec_swiss_groups_decreases(rounds: Seq<RoundView>, pool: Seq<PlayerId>, size: u8) {
    if size == 0 || pool.len() < size {
    } else {
        let seed = pool[0];
        lemma_fill_len(rounds, pool.drop_first(), seq![seed], size);
    }
}

/// A group free of repeat pairings: no two members have ever shared a round.
pub open spec fn spec_group_fresh(rounds: Seq<RoundView>, g: Seq<PlayerId>) -> bool {
    forall|a: int, b: int|
        0 <= a < g.len() && 0 <= b < g.len() && a != b ==> !spec_played_together(
            rounds,
            g[a],
            g[b],
        )
}

/// The one scan keeps a fresh group fresh: it only admits players who
/// conflict with nobody already seated.
pub proof fn lemma_fill_fresh(
    rounds: Seq<RoundView>,
    pool: Seq<PlayerId>,
    group: Seq<PlayerId>,
    size: u8,
)
    requires
        spec_group_fresh(rounds, group),
    ensures
        spec_group_fresh(rounds, spec_fill(rounds, pool, group, size).0),
    decreases pool.len(),
{
    if pool.len() == 0 {
    } else {
        let x = pool[0];
        if group.len() < size && !spec_conflicts(rounds, group, x) {
            let g2 = group.push(x);
            assert forall|a: int, b: int|
                0 <= a < g2.len() && 0 <= b < g2.len() && a != b implies !spec_played_together(
                rounds,
                g2[a],
                g2[b],
            ) by {
                if a < group.len() && b < group.len() {
                    assert(!spec_played_together(rounds, group[a], group[b]));
                } else if b == group.len() {
                    assert(g2[b] == x);
                    assert(!spec_played_together(rounds, group[a], x));
                } else {
                    assert(g2[a] == x);
                    assert(!spec_played_together(rounds, group[b], x));
                    assert forall|q: PlayerId, r: PlayerId|
                        spec_played_together(rounds, q, r) implies spec_played_together(
                        rounds,
                        r,
                        q,
                    ) by {}
                }
            }
            lemma_fill_fresh(rounds, pool.drop_first(), g2, size);
        } else {
            lemma_fill_fresh(rounds, pool.drop_first(), group, size);
        }
    }
}

/// The Swiss guarantee: every group the greedy pass proposes is free of
/// repeat pairings — players who could only be seated against a past
/// opponent are deferred instead.
pub proof fn lemma_swiss_no_repeat(rounds: Seq<RoundView>, pool: Seq<PlayerId>, size: u8)
    ensures
        forall|k: int|
            0 <= k < spec_swiss_groups(rounds, pool, size).0.len() ==> spec_group_fresh(
                rounds,
                #[trigger] spec_swiss_groups(rounds, pool, size).0[k],
            ),
        forall|k: int|
            0 <= k < spec_swiss_groups(rounds, pool, size).0.len() ==> (
            #[trigger] spec_swiss_groups(rounds, pool, size).0[k]).len() == size,
    decreases pool.len(),
{
    if size == 0 || pool.len() < size {
    } else {
        let seed = pool[0];
        let (g, rest) = spec_fill(rounds, pool.drop_first(), seq![seed], size);
        lemma_fill_len(rounds, pool.drop_first(), seq![seed], size);
        if g.len() == size {
            assert(spec_group_fresh(rounds, seq![seed]));
            lemma_fill_fresh(rounds, pool.drop_first(), seq![seed], size);
            lemma_swiss_no_repeat(rounds, rest, size);
            let gs = spec_swiss_groups(rounds, pool, size).0;
            let tail = spec_swiss_groups(rounds, rest, size).0;
            assert(gs == seq![g] + tail);
            assert forall|k: int| 0 <= k < gs.len() implies spec_group_fresh(
                rounds,
                #[trigger] spec_swiss_groups(rounds, pool, size).0[k],
            ) && (#[trigger] spec_swiss_groups(rounds, pool, size).0[k]).len() == size by {
                if k == 0 {
                    assert(gs[0] == g);
                } else {
                    assert(gs[k] == tail[k - 1]);
                    assert(spec_group_fresh(rounds, tail[k - 1]));
                    assert(tail[k - 1].len() == size);
                }
            }
        } else {
            lemma_swiss_no_repeat(rounds, pool.drop_first(), size);
            let gs = spec_swiss_groups(rounds, pool, size).0;
            let tail = spec_swiss_groups(rounds, pool.drop_first(), size).0;
            assert(gs == tail);
            assert forall|k: int| 0 <= k < gs.len() implies spec_group_fresh(
                rounds,
                #[trigger] spec_swiss_groups(rounds, pool, size).0[k],
            ) && (#[trigger] spec_swiss_groups(rounds, pool, size).0[k]).len() == size by {
                assert(spec_group_fresh(rounds, tail[k]));
                assert(tail[k].len() == size);
            }
        }
    }
}

/// The Swiss pairing engine: the table size, the check-in requirement knob,
/// and the players currently ready to be paired.
#[derive(Debug)]
pub struct SwissPairings {
    pub match_size: u8,
    pub do_check_ins: bool,
    pub ready: Vec<PlayerId>,
}

/// The observable content of a `SwissPairings`.
pub struct SwissPairingsView {
    pub match_size: u8,
    pub do_check_ins: bool,
    pub ready: Seq<PlayerId>,
}

impl View for SwissPairings {
    type V = SwissPairingsView;

    open spec fn view(&self) -> SwissPairingsView {
        SwissPairingsView {
            match_size: self.match_size,
            do_check_ins: self.do_check_ins,
            ready: self.ready@,
        }
    }
}

impl SwissPairings {
    /// The engine's invariant: the ready list holds no duplicates.
    pub open spec fn wf(&self) -> bool {
        players_unique(self@.ready)
    }

    /// A fresh engine with the given table size and nobody ready.
    pub fn new(match_size: u8) -> (r: SwissPairings)
        ensures
            r@.match_size == match_size,
            r@.do_check_ins == false,
            r@.ready == Seq::<PlayerId>::empty(),
            r.wf(),
    {
        let r = SwissPairings { match_size, do_check_ins: false, ready: Vec::new() };
        proof {
            assert(r@.ready =~= Seq::<PlayerId>::empty());
        }
        r
    }

    /// Marks a player ready; readying twice changes nothing.
    pub fn ready_player(&mut self, p: PlayerId)
        requires
            old(self).wf(),
        ensures
            final(self)@.ready == spec_set_insert(old(self)@.ready, p),
            final(self)@.match_size == old(self)@.match_size,
            final(self)@.do_check_ins == old(self)@.do_check_ins,
            final(self).wf(),
    {
        vec_set_insert(&mut self.ready, p);
    }

    /// Withdraws a player's readiness; a no-op if the player is not ready.
    pub fn unready_player(&mut self, p: PlayerId)
        requires
            old(self).wf(),
        ensures
            final(self)@.ready == spec_set_remove(old(self)@.ready, p),
            final(self)@.match_size == old(self)@.match_size,
            final(self)@.do_check_ins == old(self)@.do_check_ins,
            final(self).wf(),
    {
        vec_set_remove(&mut self.ready, p);
    }

    /// Swiss never pairs on readiness alone; pairing is asked for explicitly.
    pub fn ready_to_pair(&self) -> (r: bool)
        ensures
            r == false,
    {
        false
    }

    /// Applies a Swiss setting.
    pub fn update_setting(&mut self, setting: SwissPairingsSetting)
        requires
            old(self).wf(),
        ensures
            final(self)@.ready == old(self)@.ready,
            final(self).wf(),
            match setting {
                SwissPairingsSetting::MatchSize(n) => final(self)@.match_size == n
                    && final(self)@.do_check_ins == old(self)@.do_check_ins,
                SwissPairingsSetting::DoCheckIns(b) => final(self)@.do_check_ins == b
                    && final(self)@.match_size == old(self)@.match_size,
            },
    {
        match setting {
            SwissPairingsSetting::MatchSize(n) => {
                self.match_size = n;
            },
            SwissPairingsSetting::DoCheckIns(b) => {
                self.do_check_ins = b;
            },
        }
    }
}

/// Whether `p` and `q` have ever shared a round.
fn played_together(rounds: &RoundRegistry, p: PlayerId, q: PlayerId) -> (r: bool)
    ensures
        r == spec_played_together(rounds@.rounds, p, q),
{
    let mut i: usize = 0;
    while i < rounds.rounds.len()
        invariant
            i <= rounds@.rounds.len(),
            forall|j: int|
                0 <= j < i ==> !((#[trigger] rounds@.rounds[j]).players.contains(p)
                    && rounds@.rounds[j].players.contains(q)),
        decreases rounds@.rounds.len() - i,
    {
        if crate::round::vec_contains_player(&rounds.rounds[i].players, p)
            && crate::round::vec_contains_player(&rounds.rounds[i].players, q) {
            proof {
                assert((#[trigger] rounds@.rounds[i as int]).players.contains(p)
                    && rounds@.rounds[i as int].players.contains(q));
            }
            return true;
        }
        i += 1;
    }
    false
}

/// Whether `cand` has shared a round with any member of `group`.
fn conflicts(rounds: &RoundRegistry, group: &Vec<PlayerId>, cand: PlayerId) -> (r: bool)
    ensures
        r == spec_conflicts(rounds@.rounds, group@, cand),
{
    let mut i: usize = 0;
    while i < group.len()
        invariant
            i <= group@.len(),
            forall|j: int|
                0 <= j < i ==> !spec_played_together(rounds@.rounds, #[trigger] group@[j], cand),
        decreases group@.len() - i,
    {
        if played_together(rounds, group[i], cand) {
            return true;
        }
        i += 1;
    }
    false
}

/// The observable content of a vector of groups.
pub open spec fn groups_view(s: Seq<Vec<PlayerId>>) -> Seq<Seq<PlayerId>> {
    s.map_values(|v: Vec<PlayerId>| v@)
}

/// One greedy scan over `pool` from index `k` on, mirroring `spec_fill`.
fn fill_rec(
    rounds: &RoundRegistry,
    pool: &Vec<PlayerId>,
    k: usize,
    group: Vec<PlayerId>,
    size: u8,
) -> (r: (Vec<PlayerId>, Vec<PlayerId>))
    requires
        k <= pool@.len(),
    ensures
        (r.0@, r.1@) == spec_fill(rounds@.rounds, pool@.skip(k as int), group@, size),
    decreases pool@.len() - k,
{
    if k == pool.len() {
        proof {
            assert(pool@.skip(k as int) =~= Seq::<PlayerId>::empty());
        }
        let out: Vec<PlayerId> = Vec::new();
        proof {
            assert(out@ =~= Seq::<PlayerId>::empty());
            assert((group@, out@) == spec_fill(rounds@.rounds, pool@.skip(k as int), group@, size));
        }
        (group, out)
    } else {
        let ghost tail = pool@.skip(k as int);
        proof {
            assert(tail.len() > 0);
            assert(tail[0] == pool@[k as int]);
            assert(tail.drop_first() =~= pool@.skip(k as int + 1));
        }
        let x = pool[k];
        if group.len() < size as usize && !conflicts(rounds, &group, x) {
            let mut g2 = group;
            g2.push(x);
            fill_rec(rounds, pool, k + 1, g2, size)
        } else {
            let (g, mut r) = fill_rec(rounds, pool, k + 1, group, size);
            let ghost rv = r@;
            r.insert(0, x);
            proof {
                assert(r@ =~= seq![x] + rv);
            }
            (g, r)
        }
    }
}

/// Repeated greedy grouping over a pool, mirroring `spec_swiss_groups`.
pub(crate) fn swiss_groups_rec(rounds: &RoundRegistry, pool: Vec<PlayerId>, size: u8) -> (r: (
    Vec<Vec<PlayerId>>,
    Vec<PlayerId>,
))
    ensures
        (groups_view(r.0@), r.1@) == spec_swiss_groups(rounds@.rounds, pool@, size),
    decreases pool@.len(),
{
    if size == 0 || pool.len() < size as usize {
        let gs: Vec<Vec<PlayerId>> = Vec::new();
        proof {
            assert(groups_view(gs@) =~= Seq::<Seq<PlayerId>>::empty());
        }
        (gs, pool)
    } else {
        let seed = pool[0];
        let mut seed_group: Vec<PlayerId> = Vec::new();
        seed_group.push(seed);
        proof {
            assert(seed_group@ =~= seq![seed]);
            assert(pool@.skip(1) =~= pool@.drop_first());
        }
        let (g, rest) = fill_rec(rounds, &pool, 1, seed_group, size);
        proof {
            lemma_fill_len(rounds@.rounds, pool@.drop_first(), seq![seed], size);
        }
        if g.len() == size as usize {
            let (mut gs, lo) = swiss_groups_rec(rounds, rest, size);
            let ghost gsv = groups_view(gs@);
            gs.insert(0, g);
            proof {
                assert(groups_view(gs@) =~= seq![g@] + gsv);
            }
            (gs, lo)
        } else {
            let mut tail: Vec<PlayerId> = Vec::new();
            let mut i: usize = 1;
            while i < pool.len()
                invariant
                    1 <= i <= pool@.len(),
                    tail@ == pool@.drop_first().take(i - 1),
                decreases pool@.len() - i,
            {
                tail.push(pool[i]);
                proof {
                    assert(tail@ =~= pool@.drop_first().take(i as int));
                }
                i += 1;
            }
            proof {
                assert(pool@.drop_first().take(pool@.len() - 1) =~= pool@.drop_first());
            }
            let (gs, lo) = swiss_groups_rec(rounds, tail, size);
            let mut out: Vec<PlayerId> = Vec::new();
            out.push(seed);
            let mut j: usize = 0;
            let ghost lov = lo@;
            while j < lo.len()
                invariant
                    j <= lov.len(),
                    lo@ == lov,
                    out@ == seq![seed] + lov.take(j as int),
                decreases lov.len() - j,
            {
                out.push(lo[j]);
                proof {
                    assert(out@ =~= seq![seed] + lov.take(j as int + 1));
                }
                j += 1;
            }
            proof {
                assert(lov.take(lov.len() as int) =~= lov);
            }
            (gs, out)
        }
    }
}

impl SwissPairings {
    /// Pairs every eligible ready player into fresh groups of the table
    /// size, in readiness order; players whom the no-repeat rule leaves over
    /// stay ready. Returns `None` when no full group can be formed.
    pub fn pair(&mut self, players: &PlayerRegistry, rounds: &RoundRegistry) -> (r: Option<
        Vec<Vec<PlayerId>>,
    >)
        requires
            old(self).wf(),
            players.wf(),
        ensures
            final(self).wf(),
            final(self)@.match_size == old(self)@.match_size,
            final(self)@.do_check_ins == old(self)@.do_check_ins,
            ({
                let pool = spec_eligible(old(self)@.ready, players@);
                let (gs, lo) = spec_swiss_groups(rounds@.rounds, pool, old(self)@.match_size);
                if gs.len() > 0 {
                    r is Some && groups_view(r.unwrap()@) == gs && final(self)@.ready == lo
                } else {
                    r is None && final(self)@.ready == old(self)@.ready
                }
            }),
    {
        let eligible = eligible_players(&self.ready, players);
        let (gs, lo) = swiss_groups_rec(rounds, eligible, self.match_size);
        if gs.len() > 0 {
            proof {
                lemma_eligible_unique(old(self)@.ready, players@);
                let pool = spec_eligible(old(self)@.ready, players@);
                lemma_swiss_groups_members(rounds@.rounds, pool, old(self)@.match_size);
            }
            self.ready = lo;
            Some(gs)
        } else {
            None
        }
    }
}

/// The eligible ready players, in readiness order, mirroring
/// `spec_eligible`.
pub(crate) fn eligible_players(ready: &Vec<PlayerId>, players: &PlayerRegistry) -> (r: Vec<PlayerId>)
    requires
        players.wf(),
    ensures
        r@ == spec_eligible(ready@, players@),
{
    let r = eligible_rec(ready, 0, players);
    proof {
        assert(ready@.skip(0) =~= ready@);
    }
    r
}

/// The eligible players among `ready[k..]`.
fn eligible_rec(ready: &Vec<PlayerId>, k: usize, players: &PlayerRegistry) -> (r: Vec<PlayerId>)
    requires
        players.wf(),
        k <= ready@.len(),
    ensures
        r@ == spec_eligible(ready@.skip(k as int), players@),
    decreases ready@.len() - k,
{
    if k == ready.len() {
        let out: Vec<PlayerId> = Vec::new();
        proof {
            assert(ready@.skip(k as int) =~= Seq::<PlayerId>::empty());
            assert(out@ =~= Seq::<PlayerId>::empty());
        }
        out
    } else {
        let ghost tail = ready@.skip(k as int);
        proof {
            assert(tail[0] == ready@[k as int]);
            assert(tail.drop_first() =~= ready@.skip(k as int + 1));
        }
        let p = ready[k];
        let rest = eligible_rec(ready, k + 1, players);
        let can = match players.player_index(&PlayerIdentifier::Id(p)) {
            Some(i) => players.players[i].can_play(),
            None => false,
        };
        proof {
            if can {
                assert(spec_can_play(players@, p));
            } else {
                assert(!spec_can_play(players@, p));
            }
        }
        if can {
            let mut out: Vec<PlayerId> = Vec::new();
            out.push(p);
            let mut j: usize = 0;
            let ghost rv = rest@;
            let mut rest2 = rest;
            while j < rest2.len()
                invariant
                    j <= rv.len(),
                    rest2@ == rv,
                    out@ == seq![p] + rv.take(j as int),
                decreases rv.len() - j,
            {
                out.push(rest2[j]);
                proof {
                    assert(out@ =~= seq![p] + rv.take(j as int + 1));
                }
                j += 1;
            }
            proof {
                assert(rv.take(rv.len() as int) =~= rv);
            }
            out
        } else {
            rest
        }
    }
}

/// Eligibility keeps the no-duplicates property of the ready list.
pub proof fn lemma_eligible_unique(ready: Seq<PlayerId>, players: Seq<crate::player::PlayerView>)
    requires
        players_unique(ready),
    ensures
        players_unique(spec_eligible(ready, players)),
        forall|p: PlayerId| spec_eligible(ready, players).contains(p) ==> ready.contains(p),
    decreases ready.len(),
{
    if ready.len() == 0 {
    } else {
        assert forall|i: int, j: int| 0 <= i < j < ready.drop_first().len() implies ready
            .drop_first()[i] != ready.drop_first()[j] by {
            assert(ready[i + 1] != ready[j + 1]);
        }
        lemma_eligible_unique(ready.drop_first(), players);
        let rest = spec_eligible(ready.drop_first(), players);
        assert forall|p: PlayerId| rest.contains(p) implies ready.contains(p) by {
            assert(ready.drop_first().contains(p));
            let k = ready.drop_first().index_of(p);
            assert(ready[k + 1] == p);
        }
        if spec_can_play(players, ready[0]) {
            let e = seq![ready[0]] + rest;
            assert forall|i: int, j: int| 0 <= i < j < e.len() implies e[i] != e[j] by {
                if i == 0 {
                    assert(e[j] == rest[j - 1]);
                    if ready[0] == rest[j - 1] {
                        assert(ready.drop_first().contains(ready[0]));
                        let k = ready.drop_first().index_of(ready[0]);
                        assert(ready[k + 1] == ready[0]);
                    }
                } else {
                    assert(e[i] == rest[i - 1] && e[j] == rest[j - 1]);
                }
            }
            assert forall|p: PlayerId| e.contains(p) implies ready.contains(p) by {
                let k = e.index_of(p);
                if k == 0 {
                    assert(ready[0] == p);
                } else {
                    assert(rest[k - 1] == p);
                    assert(rest.contains(p)) by {
                        assert(rest[k - 1] == p);
                    }
                }
            }
        } else {
            assert forall|p: PlayerId| rest.contains(p) implies ready.contains(p) by {}
        }
    }
}

/// The greedy pass keeps the pool's no-duplicates property in its
/// leftover, and hands back only players that went in.
pub proof fn lemma_swiss_groups_members(rounds: Seq<RoundView>, pool: Seq<PlayerId>, size: u8)
    requires
        players_unique(pool),
    ensures
        players_unique(spec_swiss_groups(rounds, pool, size).1),
        forall|p: PlayerId|
            spec_swiss_groups(rounds, pool, size).1.contains(p) ==> pool.contains(p),
    decreases pool.len(),
{
    if size == 0 || pool.len() < size {
    } else {
        let seed = pool[0];
        let (g, rest) = spec_fill(rounds, pool.drop_first(), seq![seed], size);
        lemma_fill_len(rounds, pool.drop_first(), seq![seed], size);
        assert forall|i: int, j: int| 0 <= i < j < pool.drop_first().len() implies pool
            .drop_first()[i] != pool.drop_first()[j] by {
            assert(pool[i + 1] != pool[j + 1]);
        }
        lemma_fill_members(rounds, pool.drop_first(), seq![seed], size);
        if g.len() == size {
            lemma_swiss_groups_members(rounds, rest, size);
            assert forall|p: PlayerId| spec_swiss_groups(rounds, pool, size).1.contains(
                p,
            ) implies pool.contains(p) by {
                assert(rest.contains(p));
                assert(pool.drop_first().contains(p));
                let k = pool.drop_first().index_of(p);
                assert(pool[k + 1] == p);
            }
        } else {
            lemma_swiss_groups_members(rounds, pool.drop_first(), size);
            let lo = spec_swiss_groups(rounds, pool.drop_first(), size).1;
            let whole = seq![seed] + lo;
            assert forall|p: PlayerId| whole.contains(p) implies pool.contains(p) by {
                let k = whole.index_of(p);
                if k == 0 {
                    assert(pool[0] == p);
                } else {
                    assert(lo[k - 1] == p);
                    assert(lo.contains(p)) by {
                        assert(lo[k - 1] == p);
                    }
                    assert(pool.drop_first().contains(p));
                    let m = pool.drop_first().index_of(p);
                    assert(pool[m + 1] == p);
                }
            }
            assert forall|i: int, j: int| 0 <= i < j < whole.len() implies whole[i]
                != whole[j] by {
                if i == 0 {
                    assert(whole[j] == lo[j - 1]);
                    if seed == lo[j - 1] {
                        assert(lo.contains(seed)) by {
                            assert(lo[j - 1] == seed);
                        }
                        assert(pool.drop_first().contains(seed));
                        let m = pool.drop_first().index_of(seed);
                        assert(pool[m + 1] == seed);
                        assert(pool[0] == seed);
                    }
                } else {
                    assert(whole[i] == lo[i - 1] && whole[j] == lo[j - 1]);
                }
            }
        }
    }
}

/// Scan leftovers come from the scanned pool.
pub proof fn lemma_fill_members(
    rounds: Seq<RoundView>,
    pool: Seq<PlayerId>,
    group: Seq<PlayerId>,
    size: u8,
)
    requires
        players_unique(pool),
    ensures
        players_unique(spec_fill(rounds, pool, group, size).1),
        forall|p: PlayerId|
            spec_fill(rounds, pool, group, size).1.contains(p) ==> pool.contains(p),
    decreases pool.len(),
{
    if pool.len() == 0 {
    } else {
        let x = pool[0];
        assert forall|i: int, j: int| 0 <= i < j < pool.drop_first().len() implies pool
            .drop_first()[i] != pool.drop_first()[j] by {
            assert(pool[i + 1] != pool[j + 1]);
        }
        if group.len() < size && !spec_conflicts(rounds, group, x) {
            lemma_fill_members(rounds, pool.drop_first(), group.push(x), size);
            assert forall|p: PlayerId| spec_fill(rounds, pool, group, size).1.contains(
                p,
            ) implies pool.contains(p) by {
                assert(spec_fill(rounds, pool.drop_first(), group.push(x), size).1.contains(p));
                assert(pool.drop_first().contains(p));
                let k = pool.drop_first().index_of(p);
                assert(pool[k + 1] == p);
            }
        } else {
            lemma_fill_members(rounds, pool.drop_first(), group, size);
            let r0 = spec_fill(rounds, pool.drop_first(), group, size).1;
            let whole = seq![x] + r0;
            assert forall|p: PlayerId| whole.contains(p) implies pool.contains(p) by {
                let k = whole.index_of(p);
                if k == 0 {
                    assert(pool[0] == p);
                } else {
                    assert(r0[k - 1] == p);
                    assert(r0.contains(p)) by {
                        assert(r0[k - 1] == p);
                    }
                    assert(pool.drop_first().contains(p));
                    let m = pool.drop_first().index_of(p);
                    assert(pool[m + 1] == p);
                }
            }
            assert forall|i: int, j: int| 0 <= i < j < whole.len() implies whole[i]
                != whole[j] by {
                if i == 0 {
                    assert(whole[j] == r0[j - 1]);
                    if x == r0[j - 1] {
                        assert(r0.contains(x)) by {
                            assert(r0[j - 1] == x);
                        }
                        assert(pool.drop_first().contains(x));
                        let m = pool.drop_first().index_of(x);
                        assert(pool[m + 1] == x);
                        assert(pool[0] == x);
                    }
                } else {
                    assert(whole[i] == r0[i - 1] && whole[j] == r0[j - 1]);
                }
            }
        }
    }
}


impl Clone for SwissPairings {
    /// A copy with the same observable content.
    fn clone(&self) -> (r: Self)
        ensures
            r@ == self@,
    {
        let mut ready: Vec<PlayerId> = Vec::new();
        let mut i: usize = 0;
        while i < self.ready.len()
            invariant
                i <= self.ready@.len(),
                ready@ == self.ready@.take(i as int),
            decreases self.ready@.len() - i,
        {
            ready.push(self.ready[i]);
            proof {
                assert(ready@ =~= self.ready@.take(i as int + 1));
            }
            i += 1;
        }
        proof {
            assert(self.ready@.take(self.ready@.len() as int) =~= self.ready@);
        }
        SwissPairings { match_size: self.match_size, do_check_ins: self.do_check_ins, ready }
    }
}

} // verus!
