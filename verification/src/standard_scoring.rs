//! Standard scoring: integer points per certified round — a win is worth
//! `win_points`, a certified draw `draw_points` for every participant, and a
//! bye counts as a win for its sole participant. Players are ranked by
//! points, ties broken by ascending player id so standings are reproducible.

use vstd::prelude::*;

use crate::identifiers::PlayerId;
use crate::player::{PlayerStatus, PlayerView};
use crate::player_registry::PlayerRegistry;
use crate::round::{RoundStatus, RoundView};
use crate::round_registry::RoundRegistry;
use crate::scoring::Standings;
use crate::settings::StandardScoringSetting;

verus! {

/// One line of the standings: a player and their points.
#[derive(Debug, Clone, Copy, PartialEq, Eq, Structural)]
pub struct StandardScore {
    pub player: PlayerId,
    pub score: u128,
}

/// The standard scoring engine and its two knobs.
#[derive(Debug, Clone, Copy, PartialEq, Eq, Structural)]
pub struct StandardScoring {
    pub win_points: u64,
    pub draw_points: u64,
}

/// The points round `r` awards player `p`: only certified rounds count; the
/// round's winner takes `win`, and a certified drawn round pays `draw` to
/// everyone seated.
pub open spec fn spec_round_points(r: RoundView, p: PlayerId, win: u64, draw: u64) -> u128 {
    if r.status == RoundStatus::Certified && r.players.contains(p) {
        match r.winner {
            Some(w) => if w == p {
                win as u128
            } else {
                0
            },
            None => if r.results.len() > 0 {
                draw as u128
            } else {
                0
            },
        }
    } else {
        0
    }
}

/// The points `p` has earned over the first `n` rounds.
pub open spec fn spec_score_upto(
    rounds: Seq<RoundView>,
    p: PlayerId,
    win: u64,
    draw: u64,
    n: int,
) -> int
    decreases n,
{
    if n <= 0 {
        0
    } else {
        spec_score_upto(rounds, p, win, draw, n - 1) + spec_round_points(
            rounds[n - 1],
            p,
            win,
            draw,
        )
    }
}

/// The points `p` has earned over all rounds.
pub open spec fn spec_score(rounds: Seq<RoundView>, p: PlayerId, win: u64, draw: u64) -> int {
    spec_score_upto(rounds, p, win, draw, rounds.len() as int)
}

/// A score never exceeds one maximal award per round.
pub proof fn lemma_score_bound(rounds: Seq<RoundView>, p: PlayerId, win: u64, draw: u64, n: int)
    requires
        0 <= n <= rounds.len(),
    ensures
        0 <= spec_score_upto(rounds, p, win, draw, n) <= n * (u64::MAX as int),
    decreases n,
{
    if n <= 0 {
    } else {
        lemma_score_bound(rounds, p, win, draw, n - 1);
        assert(spec_round_points(rounds[n - 1], p, win, draw) <= u64::MAX as int);
        assert((n - 1) * (u64::MAX as int) + u64::MAX as int == n * (u64::MAX as int))
            by (nonlinear_arith);
    }
}

/// As many maximal awards as players can take still fit the accumulator.
pub proof fn lemma_units_fit(n: int)
    by (nonlinear_arith)
    requires
        0 <= n <= u64::MAX as int + 1,
    ensures
        n * (u64::MAX as int) <= u128::MAX as int,
{
}

/// Ranking order: more points first, ties broken by ascending id.
pub open spec fn spec_ranks_before(a: StandardScore, b: StandardScore) -> bool {
    a.score > b.score || (a.score == b.score && a.player.0 < b.player.0)
}

/// `x` inserted into `s` before the first entry it outranks.
pub open spec fn spec_insert_sorted(s: Seq<StandardScore>, x: StandardScore) -> Seq<
    StandardScore,
>
    decreases s.len(),
{
    if s.len() == 0 {
        seq![x]
    } else if spec_ranks_before(x, s[0]) {
        seq![x] + s
    } else {
        seq![s[0]] + spec_insert_sorted(s.drop_first(), x)
    }
}

/// The first `n` entries of `s`, ranked by repeated insertion.
pub open spec fn spec_sort_upto(s: Seq<StandardScore>, n: int) -> Seq<StandardScore>
    decreases n,
{
    if n <= 0 {
        Seq::empty()
    } else {
        spec_insert_sorted(spec_sort_upto(s, n - 1), s[n - 1])
    }
}

/// `s` ranked by repeated insertion.
pub open spec fn spec_sort(s: Seq<StandardScore>) -> Seq<StandardScore> {
    spec_sort_upto(s, s.len() as int)
}

/// One score entry per never-dropped player among the first `n` players, in
/// roster order.
pub open spec fn spec_entries_upto(
    players: Seq<PlayerView>,
    rounds: Seq<RoundView>,
    win: u64,
    draw: u64,
    n: int,
) -> Seq<StandardScore>
    decreases n,
{
    if n <= 0 {
        Seq::empty()
    } else {
        let rest = spec_entries_upto(players, rounds, win, draw, n - 1);
        if players[n - 1].status != PlayerStatus::Dropped {
            rest + seq![
                StandardScore {
                    player: PlayerId(players[n - 1].id),
                    score: spec_score(rounds, PlayerId(players[n - 1].id), win, draw) as u128,
                },
            ]
        } else {
            rest
        }
    }
}

/// The ranked standings as a mathematical function of roster, rounds and
/// the two point knobs.
pub open spec fn spec_standings(
    players: Seq<PlayerView>,
    rounds: Seq<RoundView>,
    win: u64,
    draw: u64,
) -> Seq<StandardScore> {
    spec_sort(spec_entries_upto(players, rounds, win, draw, players.len() as int))
}

/// A sequence ranked best-first: no entry outranks an earlier one.
pub open spec fn spec_ranked(s: Seq<StandardScore>) -> bool {
    forall|i: int, j: int| 0 <= i < j < s.len() ==> !spec_ranks_before(s[j], s[i])
}

/// Insertion keeps a ranked sequence ranked.
pub proof fn lemma_insert_sorted_ranked(s: Seq<StandardScore>, x: StandardScore)
    requires
        spec_ranked(s),
    ensures
        spec_ranked(spec_insert_sorted(s, x)),
        spec_insert_sorted(s, x).len() == s.len() + 1,
    decreases s.len(),
{
    if s.len() == 0 {
    } else if spec_ranks_before(x, s[0]) {
        let t = seq![x] + s;
        assert forall|i: int, j: int| 0 <= i < j < t.len() implies !spec_ranks_before(
            t[j],
            t[i],
        ) by {
            if i == 0 {
                assert(t[0] == x);
                assert(t[j] == s[j - 1]);
                if j > 1 {
                    assert(!spec_ranks_before(s[j - 1], s[0]));
                }
            } else {
                assert(t[i] == s[i - 1] && t[j] == s[j - 1]);
                assert(!spec_ranks_before(s[j - 1], s[i - 1]));
            }
        }
    } else {
        assert forall|i: int, j: int| 0 <= i < j < s.drop_first().len() implies !spec_ranks_before(
            s.drop_first()[j],
            s.drop_first()[i],
        ) by {
            assert(!spec_ranks_before(s[j + 1], s[i + 1]));
        }
        lemma_insert_sorted_ranked(s.drop_first(), x);
        let rec = spec_insert_sorted(s.drop_first(), x);
        let t = seq![s[0]] + rec;
        lemma_insert_sorted_members(s.drop_first(), x);
        assert forall|i: int, j: int| 0 <= i < j < t.len() implies !spec_ranks_before(
            t[j],
            t[i],
        ) by {
            if i == 0 {
                assert(t[j] == rec[j - 1]);
                if rec[j - 1] == x {
                    assert(!spec_ranks_before(x, s[0]));
                } else {
                    assert(s.drop_first().contains(rec[j - 1]));
                    let m = s.drop_first().index_of(rec[j - 1]);
                    assert(s[m + 1] == rec[j - 1]);
                    assert(!spec_ranks_before(s[m + 1], s[0]));
                }
            } else {
                assert(t[i] == rec[i - 1] && t[j] == rec[j - 1]);
                assert(!spec_ranks_before(rec[j - 1], rec[i - 1]));
            }
        }
    }
}

/// Everything in an insertion result is the inserted entry or came from the
/// sequence.
pub proof fn lemma_insert_sorted_members(s: Seq<StandardScore>, x: StandardScore)
    ensures
        forall|e: StandardScore|
            spec_insert_sorted(s, x).contains(e) ==> e == x || s.contains(e),
    decreases s.len(),
{
    if s.len() == 0 {
    } else if spec_ranks_before(x, s[0]) {
        let t = seq![x] + s;
        assert forall|e: StandardScore| t.contains(e) implies e == x || s.contains(e) by {
            let k = t.index_of(e);
            if k > 0 {
                assert(s[k - 1] == e);
            }
        }
    } else {
        lemma_insert_sorted_members(s.drop_first(), x);
        let rec = spec_insert_sorted(s.drop_first(), x);
        let t = seq![s[0]] + rec;
        assert forall|e: StandardScore| t.contains(e) implies e == x || s.contains(e) by {
            let k = t.index_of(e);
            if k == 0 {
                assert(s[0] == e);
            } else {
                assert(rec[k - 1] == e);
                assert(rec.contains(e)) by {
                    assert(rec[k - 1] == e);
                }
                if e != x {
                    assert(s.drop_first().contains(e));
                    let m = s.drop_first().index_of(e);
                    assert(s[m + 1] == e);
                }
            }
        }
    }
}

/// The ranked standings are indeed ranked best-first.
pub proof fn lemma_standings_ranked(s: Seq<StandardScore>, n: int)
    requires
        0 <= n,
    ensures
        spec_ranked(spec_sort_upto(s, n)),
    decreases n,
{
    if n <= 0 {
    } else {
        lemma_standings_ranked(s, n - 1);
        lemma_insert_sorted_ranked(spec_sort_upto(s, n - 1), s[n - 1]);
    }
}

impl StandardScoring {
    /// The default awards: a win is two units, a draw one.
    pub fn new() -> (r: StandardScoring)
        ensures
            r.win_points == 2,
            r.draw_points == 1,
    {
        StandardScoring { win_points: 2, draw_points: 1 }
    }

    /// Applies a standard scoring setting.
    pub fn update_setting(&mut self, setting: StandardScoringSetting)
        ensures
            match setting {
                StandardScoringSetting::MatchWinPoints(n) => *final(self) == (StandardScoring {
                    win_points: n,
                    ..*old(self)
                }),
                StandardScoringSetting::MatchDrawPoints(n) => *final(self) == (StandardScoring {
                    draw_points: n,
                    ..*old(self)
                }),
            },
    {
        match setting {
            StandardScoringSetting::MatchWinPoints(n) => {
                self.win_points = n;
            },
            StandardScoringSetting::MatchDrawPoints(n) => {
                self.draw_points = n;
            },
        }
    }

    /// The ranked standings of every never-dropped player, best first:
    /// points from certified rounds, ties broken by ascending player id.
    pub fn get_standings(&self, players: &PlayerRegistry, rounds: &RoundRegistry) -> (r: Standings<
        StandardScore,
    >)
        ensures
            r@ == spec_standings(players@, rounds@.rounds, self.win_points, self.draw_points),
            spec_ranked(r@),
    {
        let win = self.win_points;
        let draw = self.draw_points;
        let mut entries: Vec<StandardScore> = Vec::new();
        let mut i: usize = 0;
        while i < players.players.len()
            invariant
                i <= players@.len(),
                entries@ == spec_entries_upto(players@, rounds@.rounds, win, draw, i as int),
            decreases players@.len() - i,
        {
            let p = &players.players[i];
            if p.can_play() {
                let pid = p.id;
                let score = score_of(rounds, pid, win, draw);
                let ghost before = entries@;
                entries.push(StandardScore { player: pid, score });
                proof {
                    assert(players@[i as int] == players.players@[i as int]@);
                    lemma_score_bound(
                        rounds@.rounds,
                        PlayerId(players@[i as int].id),
                        win,
                        draw,
                        rounds@.rounds.len() as int,
                    );
                    assert(entries@ =~= before + seq![
                        StandardScore {
                            player: PlayerId(players@[i as int].id),
                            score: spec_score(
                                rounds@.rounds,
                                PlayerId(players@[i as int].id),
                                win,
                                draw,
                            ) as u128,
                        },
                    ]);
                }
            } else {
                proof {
                    assert(players@[i as int] == players.players@[i as int]@);
                }
            }
            i += 1;
        }
        let mut ranked: Vec<StandardScore> = Vec::new();
        let mut j: usize = 0;
        let ghost es = entries@;
        while j < entries.len()
            invariant
                j <= es.len(),
                entries@ == es,
                ranked@ == spec_sort_upto(es, j as int),
                spec_ranked(ranked@),
            decreases es.len() - j,
        {
            proof {
                lemma_insert_sorted_ranked(ranked@, es[j as int]);
            }
            ranked = insert_sorted(ranked, entries[j]);
            j += 1;
        }
        proof {
            lemma_standings_ranked(es, es.len() as int);
        }
        Standings::new(ranked)
    }
}

/// The points `p` has earned over all rounds, by one pass.
fn score_of(rounds: &RoundRegistry, p: PlayerId, win: u64, draw: u64) -> (r: u128)
    ensures
        r == spec_score(rounds@.rounds, p, win, draw),
{
    let mut acc: u128 = 0;
    let mut i: usize = 0;
    while i < rounds.rounds.len()
        invariant
            i <= rounds@.rounds.len(),
            acc == spec_score_upto(rounds@.rounds, p, win, draw, i as int),
        decreases rounds@.rounds.len() - i,
    {
        proof {
            lemma_score_bound(rounds@.rounds, p, win, draw, i as int);
            lemma_score_bound(rounds@.rounds, p, win, draw, i as int + 1);
            lemma_units_fit(i as int + 1);
        }
        let rd = &rounds.rounds[i];
        let pts: u64 = if rd.is_certified() && crate::round::vec_contains_player(&rd.players, p) {
            match rd.winner {
                Some(w) => if w == p {
                    win
                } else {
                    0
                },
                None => if rd.results.len() > 0 {
                    draw
                } else {
                    0
                },
            }
        } else {
            0
        };
        proof {
            assert(rounds@.rounds[i as int] == rounds.rounds@[i as int]@);
            assert(pts as u128 == spec_round_points(rounds@.rounds[i as int], p, win, draw));
        }
        acc = acc + pts as u128;
        i += 1;
    }
    acc
}

/// Inserts an entry into a ranked vector, mirroring `spec_insert_sorted`.
fn insert_sorted(v: Vec<StandardScore>, x: StandardScore) -> (r: Vec<StandardScore>)
    ensures
        r@ == spec_insert_sorted(v@, x),
{
    let r = insert_sorted_rec(&v, 0, x);
    proof {
        assert(v@.skip(0) =~= v@);
    }
    r
}

/// Exec ranking comparison.
fn ranks_before(a: &StandardScore, b: &StandardScore) -> (r: bool)
    ensures
        r == spec_ranks_before(*a, *b),
{
    a.score > b.score || (a.score == b.score && a.player.0 < b.player.0)
}

/// Inserts `x` into `v[k..]`, mirroring the spec's recursion.
fn insert_sorted_rec(v: &Vec<StandardScore>, k: usize, x: StandardScore) -> (r: Vec<
    StandardScore,
>)
    requires
        k <= v@.len(),
    ensures
        r@ == spec_insert_sorted(v@.skip(k as int), x),
    decreases v@.len() - k,
{
    if k == v.len() {
        let mut out: Vec<StandardScore> = Vec::new();
        out.push(x);
        proof {
            assert(v@.skip(k as int) =~= Seq::<StandardScore>::empty());
            assert(out@ =~= seq![x]);
        }
        out
    } else if ranks_before(&x, &v[k]) {
        let mut out: Vec<StandardScore> = Vec::new();
        out.push(x);
        let mut i: usize = k;
        while i < v.len()
            invariant
                k <= i <= v@.len(),
                out@ == seq![x] + v@.subrange(k as int, i as int),
            decreases v@.len() - i,
        {
            out.push(v[i]);
            proof {
                assert(out@ =~= seq![x] + v@.subrange(k as int, i as int + 1));
            }
            i += 1;
        }
        proof {
            let tail = v@.skip(k as int);
            assert(v@.subrange(k as int, v@.len() as int) =~= tail);
            assert(tail[0] == v@[k as int]);
            assert(out@ =~= seq![x] + tail);
        }
        out
    } else {
        let ghost tail = v@.skip(k as int);
        proof {
            assert(tail[0] == v@[k as int]);
            assert(tail.drop_first() =~= v@.skip(k as int + 1));
        }
        let mut rest = insert_sorted_rec(v, k + 1, x);
        rest.insert(0, v[k]);
        proof {
            assert(rest@ =~= seq![tail[0]] + spec_insert_sorted(tail.drop_first(), x));
        }
        rest
    }
}

} // verus!
