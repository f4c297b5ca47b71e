//! The roster of a tournament: every player ever registered, alive or
//! dropped. Ids and display names are unique; players are looked up by
//! either.

use vstd::prelude::*;

use crate::error::TournamentError;
use crate::identifiers::{PlayerId, PlayerIdentView, PlayerIdentifier};
use crate::player::{
    compare_strings, decks_wf, spec_add_deck, spec_remove_deck, Player, PlayerStatus, PlayerView,
};
use crate::player::has_deck;

verus! {

/// The set of players, in registration order.
#[derive(Debug)]
pub struct PlayerRegistry {
    pub players: Vec<Player>,
}

impl View for PlayerRegistry {
    type V = Seq<PlayerView>;

    open spec fn view(&self) -> Seq<PlayerView> {
        self.players@.map_values(|p: Player| p@)
    }
}

/// Whether some player in `s` has id `id`.
pub open spec fn reg_has_id(s: Seq<PlayerView>, id: u128) -> bool {
    exists|i: int| 0 <= i < s.len() && s[i].id == id
}

/// The index of the player with id `id`; unique under `reg_wf`.
pub open spec fn reg_id_index(s: Seq<PlayerView>, id: u128) -> int {
    choose|i: int| 0 <= i < s.len() && s[i].id == id
}

/// Whether some player in `s` bears the display name `name`.
pub open spec fn reg_has_name(s: Seq<PlayerView>, name: Seq<char>) -> bool {
    exists|i: int| 0 <= i < s.len() && s[i].name == name
}

/// The index of the player named `name`; unique under `reg_wf`.
pub open spec fn reg_name_index(s: Seq<PlayerView>, name: Seq<char>) -> int {
    choose|i: int| 0 <= i < s.len() && s[i].name == name
}

/// The registry's invariant: well-formed players, unique ids, unique names.
pub open spec fn reg_wf(s: Seq<PlayerView>) -> bool {
    &&& forall|i: int| 0 <= i < s.len() ==> decks_wf(#[trigger] s[i].decks)
    &&& forall|i: int, j: int| 0 <= i < j < s.len() ==> s[i].id != s[j].id
    &&& forall|i: int, j: int| 0 <= i < j < s.len() ==> s[i].name != s[j].name
}

/// Resolution of a player identifier against the roster: the index of the
/// named player, if any.
pub open spec fn spec_resolve(s: Seq<PlayerView>, ident: PlayerIdentView) -> Option<int> {
    match ident {
        PlayerIdentView::Id(id) => if reg_has_id(s, id) {
            Some(reg_id_index(s, id))
        } else {
            None
        },
        PlayerIdentView::Name(n) => if reg_has_name(s, n) {
            Some(reg_name_index(s, n))
        } else {
            None
        },
    }
}

/// Under `reg_wf`, an index with a matching id is the id's index.
pub proof fn lemma_id_index_unique(s: Seq<PlayerView>, id: u128, i: int)
    requires
        reg_wf(s),
        0 <= i < s.len(),
        s[i].id == id,
    ensures
        reg_has_id(s, id),
        reg_id_index(s, id) == i,
{
    assert(reg_has_id(s, id));
    let k = reg_id_index(s, id);
    assert(0 <= k < s.len() && s[k].id == id);
    if k < i {
        assert(s[k].id != s[i].id);
    } else if i < k {
        assert(s[i].id != s[k].id);
    }
}

/// Under `reg_wf`, an index with a matching name is the name's index.
pub proof fn lemma_name_index_unique(s: Seq<PlayerView>, name: Seq<char>, i: int)
    requires
        reg_wf(s),
        0 <= i < s.len(),
        s[i].name == name,
    ensures
        reg_has_name(s, name),
        reg_name_index(s, name) == i,
{
    assert(reg_has_name(s, name));
    let k = reg_name_index(s, name);
    assert(0 <= k < s.len() && s[k].name == name);
    if k < i {
        assert(s[k].name != s[i].name);
    } else if i < k {
        assert(s[i].name != s[k].name);
    }
}

/// Replacing one player with a player of the same id and name keeps the
/// registry well-formed.
pub proof fn lemma_reg_wf_update(s: Seq<PlayerView>, i: int, p: PlayerView)
    requires
        reg_wf(s),
        0 <= i < s.len(),
        p.id == s[i].id,
        p.name == s[i].name,
        decks_wf(p.decks),
    ensures
        reg_wf(s.update(i, p)),
{
    let t = s.update(i, p);
    assert forall|a: int| 0 <= a < t.len() implies decks_wf(#[trigger] t[a].decks) by {
        if a != i {
            assert(t[a] == s[a]);
        }
    }
    assert forall|a: int, b: int| 0 <= a < b < t.len() implies t[a].id != t[b].id by {
        assert(s[a].id != s[b].id);
    }
    assert forall|a: int, b: int| 0 <= a < b < t.len() implies t[a].name != t[b].name by {
        assert(s[a].name != s[b].name);
    }
}

impl PlayerRegistry {
    /// The registry's invariant, stated over its view.
    pub open spec fn wf(&self) -> bool {
        reg_wf(self@)
    }

    /// An empty roster.
    pub fn new() -> (r: PlayerRegistry)
        ensures
            r@ == Seq::<PlayerView>::empty(),
            r.wf(),
    {
        let r = PlayerRegistry { players: Vec::new() };
        proof {
            assert(r@ =~= Seq::<PlayerView>::empty());
        }
        r
    }

    /// How many players have ever registered.
    pub fn len(&self) -> (r: usize)
        ensures
            r == self@.len(),
    {
        self.players.len()
    }

    /// The index of the player the identifier names, if any.
    pub fn player_index(&self, ident: &PlayerIdentifier) -> (r: Option<usize>)
        requires
            self.wf(),
        ensures
            match r {
                Some(i) => i < self@.len() && spec_resolve(self@, ident@) == Some(i as int),
                None => spec_resolve(self@, ident@) is None,
            },
    {
        let mut i: usize = 0;
        while i < self.players.len()
            invariant
                self.wf(),
                i <= self@.len(),
                forall|j: int|
                    0 <= j < i ==> match ident {
                        PlayerIdentifier::Id(id) => (#[trigger] self@[j]).id != id.0,
                        PlayerIdentifier::Name(n) => self@[j].name != n@,
                    },
            decreases self@.len() - i,
        {
            let found = match ident {
                PlayerIdentifier::Id(id) => self.players[i].id == *id,
                PlayerIdentifier::Name(n) => compare_strings(&self.players[i].name, n),
            };
            if found {
                proof {
                    match ident {
                        PlayerIdentifier::Id(id) => {
                            lemma_id_index_unique(self@, id.0, i as int);
                        },
                        PlayerIdentifier::Name(n) => {
                            lemma_name_index_unique(self@, n@, i as int);
                        },
                    }
                }
                return Some(i);
            }
            i += 1;
        }
        None
    }

    /// The id of the player the identifier names, if any.
    pub fn get_player_id(&self, ident: &PlayerIdentifier) -> (r: Option<PlayerId>)
        requires
            self.wf(),
        ensures
            match r {
                Some(id) => spec_resolve(self@, ident@) is Some && self@[spec_resolve(
                    self@,
                    ident@,
                ).unwrap()].id == id.0,
                None => spec_resolve(self@, ident@) is None,
            },
    {
        match self.player_index(ident) {
            Some(i) => Some(self.players[i].id),
            None => None,
        }
    }

    /// A borrow of the player the identifier names, if any.
    pub fn get_player(&self, ident: &PlayerIdentifier) -> (r: Option<&Player>)
        requires
            self.wf(),
        ensures
            match r {
                Some(p) => spec_resolve(self@, ident@) is Some && p@ == self@[spec_resolve(
                    self@,
                    ident@,
                ).unwrap()],
                None => spec_resolve(self@, ident@) is None,
            },
    {
        match self.player_index(ident) {
            Some(i) => Some(&self.players[i]),
            None => None,
        }
    }

    /// Registers a new player. Fails with `PlayerLookup` when the id or the
    /// display name is already taken; the roster is then unchanged.
    pub fn add_player(&mut self, id: PlayerId, name: String) -> (r: Result<
        PlayerId,
        TournamentError,
    >)
        requires
            old(self).wf(),
        ensures
            final(self).wf(),
            r is Ok <==> !reg_has_id(old(self)@, id.0) && !reg_has_name(old(self)@, name@),
            r is Ok ==> r == Ok::<PlayerId, TournamentError>(id),
            r is Err ==> r == Err::<PlayerId, TournamentError>(TournamentError::PlayerLookup)
                && final(self)@ == old(self)@,
            r is Ok ==> final(self)@ == old(self)@.push(
                PlayerView {
                    id: id.0,
                    name: name@,
                    game_name: None::<Seq<char>>,
                    status: PlayerStatus::Registered,
                    decks: Seq::<(Seq<char>, mtgjson::DeckSet)>::empty(),
                },
            ),
    {
        let taken_id = self.player_index(&PlayerIdentifier::Id(id));
        if taken_id.is_some() {
            return Err(TournamentError::PlayerLookup);
        }
        let name_ident = PlayerIdentifier::Name(name.clone());
        let taken_name = self.player_index(&name_ident);
        if taken_name.is_some() {
            return Err(TournamentError::PlayerLookup);
        }
        let ghost s = self@;
        let p = Player::new(id, name);
        let ghost pv = p@;
        self.players.push(p);
        proof {
            assert(self@ =~= s.push(pv));
            assert forall|a: int, b: int| 0 <= a < b < self@.len() implies self@[a].id
                != self@[b].id by {
                if b < s.len() {
                    assert(s[a].id != s[b].id);
                } else {
                    assert(self@[b].id == id.0);
                    if s[a].id == id.0 {
                        lemma_id_index_unique(s, id.0, a);
                    }
                }
            }
            assert forall|a: int, b: int| 0 <= a < b < self@.len() implies self@[a].name
                != self@[b].name by {
                if b < s.len() {
                    assert(s[a].name != s[b].name);
                } else {
                    assert(self@[b].name == pv.name);
                    if s[a].name == pv.name {
                        lemma_name_index_unique(s, pv.name, a);
                    }
                }
            }
            assert forall|a: int| 0 <= a < self@.len() implies decks_wf(
                #[trigger] self@[a].decks,
            ) by {
                if a < s.len() {
                    assert(decks_wf(s[a].decks));
                }
            }
        }
        Ok(id)
    }
}


/// The roster after the named player's status changes, with the outcome.
pub open spec fn spec_set_status(
    s: Seq<PlayerView>,
    ident: PlayerIdentView,
    status: PlayerStatus,
) -> (Seq<PlayerView>, Result<PlayerId, TournamentError>) {
    match spec_resolve(s, ident) {
        None => (s, Err(TournamentError::PlayerLookup)),
        Some(i) => (
            s.update(i, PlayerView { status, ..s[i] }),
            Ok(PlayerId(s[i].id)),
        ),
    }
}

/// The roster after the named player's in-game name changes.
pub open spec fn spec_set_game_name(
    s: Seq<PlayerView>,
    ident: PlayerIdentView,
    name: Seq<char>,
) -> (Seq<PlayerView>, Result<PlayerId, TournamentError>) {
    match spec_resolve(s, ident) {
        None => (s, Err(TournamentError::PlayerLookup)),
        Some(i) => (
            s.update(i, PlayerView { game_name: Some(name), ..s[i] }),
            Ok(PlayerId(s[i].id)),
        ),
    }
}

/// The roster after a deck lands on the named player.
pub open spec fn spec_reg_add_deck(
    s: Seq<PlayerView>,
    ident: PlayerIdentView,
    name: Seq<char>,
    deck: mtgjson::DeckSet,
) -> (Seq<PlayerView>, Result<PlayerId, TournamentError>) {
    match spec_resolve(s, ident) {
        None => (s, Err(TournamentError::PlayerLookup)),
        Some(i) => (
            s.update(i, PlayerView { decks: spec_add_deck(s[i].decks, name, deck), ..s[i] }),
            Ok(PlayerId(s[i].id)),
        ),
    }
}

/// The roster after a deck leaves the named player; a missing player is
/// `PlayerLookup`, a missing deck `DeckLookup`.
pub open spec fn spec_reg_remove_deck(
    s: Seq<PlayerView>,
    ident: PlayerIdentView,
    name: Seq<char>,
) -> (Seq<PlayerView>, Result<PlayerId, TournamentError>) {
    match spec_resolve(s, ident) {
        None => (s, Err(TournamentError::PlayerLookup)),
        Some(i) => if has_deck(s[i].decks, name) {
            (
                s.update(i, PlayerView { decks: spec_remove_deck(s[i].decks, name), ..s[i] }),
                Ok(PlayerId(s[i].id)),
            )
        } else {
            (s, Err(TournamentError::DeckLookup))
        },
    }
}

impl PlayerRegistry {
    /// Moves the named player to a new status.
    pub fn set_status(&mut self, ident: &PlayerIdentifier, status: PlayerStatus) -> (r: Result<
        PlayerId,
        TournamentError,
    >)
        requires
            old(self).wf(),
        ensures
            final(self).wf(),
            (final(self)@, r) == spec_set_status(old(self)@, ident@, status),
            r is Err ==> *final(self) == *old(self),
    {
        match self.player_index(ident) {
            None => Err(TournamentError::PlayerLookup),
            Some(i) => {
                let ghost s = self@;
                let id = self.players[i].id;
                self.players[i].set_status(status);
                proof {
                    assert(self@ =~= s.update(i as int, PlayerView { status, ..s[i as int] }));
                    lemma_reg_wf_update(s, i as int, PlayerView { status, ..s[i as int] });
                }
                Ok(id)
            },
        }
    }

    /// Replaces the named player's in-game name.
    pub fn set_game_name(&mut self, ident: &PlayerIdentifier, name: String) -> (r: Result<
        PlayerId,
        TournamentError,
    >)
        requires
            old(self).wf(),
        ensures
            final(self).wf(),
            (final(self)@, r) == spec_set_game_name(old(self)@, ident@, name@),
            r is Err ==> *final(self) == *old(self),
    {
        match self.player_index(ident) {
            None => Err(TournamentError::PlayerLookup),
            Some(i) => {
                let ghost s = self@;
                let ghost nv = name@;
                let id = self.players[i].id;
                self.players[i].set_game_name(name);
                proof {
                    assert(self@ =~= s.update(
                        i as int,
                        PlayerView { game_name: Some(nv), ..s[i as int] },
                    ));
                    lemma_reg_wf_update(
                        s,
                        i as int,
                        PlayerView { game_name: Some(nv), ..s[i as int] },
                    );
                }
                Ok(id)
            },
        }
    }

    /// Registers a deck under a name for the named player, replacing any
    /// deck of that name.
    pub fn add_deck(&mut self, ident: &PlayerIdentifier, name: String, deck: mtgjson::DeckSet) -> (
    r: Result<PlayerId, TournamentError>)
        requires
            old(self).wf(),
        ensures
            final(self).wf(),
            (final(self)@, r) == spec_reg_add_deck(old(self)@, ident@, name@, deck),
            r is Err ==> *final(self) == *old(self),
    {
        match self.player_index(ident) {
            None => Err(TournamentError::PlayerLookup),
            Some(i) => {
                let ghost s = self@;
                let ghost nv = name@;
                let id = self.players[i].id;
                self.players[i].add_deck(name, deck);
                proof {
                    let pv = PlayerView {
                        decks: spec_add_deck(s[i as int].decks, nv, deck),
                        ..s[i as int]
                    };
                    assert(self@ =~= s.update(i as int, pv));
                    lemma_reg_wf_update(s, i as int, pv);
                }
                Ok(id)
            },
        }
    }

    /// Removes the named player's deck of the given name.
    pub fn remove_deck(&mut self, ident: &PlayerIdentifier, name: &String) -> (r: Result<
        PlayerId,
        TournamentError,
    >)
        requires
            old(self).wf(),
        ensures
            final(self).wf(),
            (final(self)@, r) == spec_reg_remove_deck(old(self)@, ident@, name@),
            r is Err ==> final(self)@ == old(self)@,
    {
        match self.player_index(ident) {
            None => Err(TournamentError::PlayerLookup),
            Some(i) => {
                let ghost s = self@;
                let ghost ev = self.players@[i as int]@;
                proof {
                    assert(ev == s[i as int]);
                }
                let id = self.players[i].id;
                let pl = &mut self.players[i];
                proof {
                    assert(*pl == old(self).players@[i as int]);
                }
                let res = pl.remove_deck(name);
                match res {
                    Ok(()) => {
                        proof {
                            assert(has_deck(ev.decks, name@));
                            assert(has_deck(s[i as int].decks, name@));
                            let pv = PlayerView {
                                decks: spec_remove_deck(s[i as int].decks, name@),
                                ..s[i as int]
                            };
                            assert(self@ =~= s.update(i as int, pv));
                            lemma_reg_wf_update(s, i as int, pv);
                        }
                        Ok(id)
                    },
                    Err(_) => {
                        proof {
                            assert(self@ =~= s);
                        }
                        Err(TournamentError::DeckLookup)
                    },
                }
            },
        }
    }
}


impl Clone for PlayerRegistry {
    /// A deep copy with the same observable content.
    fn clone(&self) -> (r: Self)
        ensures
            r@ == self@,
    {
        let mut players: Vec<Player> = Vec::new();
        let mut i: usize = 0;
        while i < self.players.len()
            invariant
                i <= self.players@.len(),
                players@.map_values(|p: Player| p@) == self.players@.map_values(
                    |p: Player| p@,
                ).take(i as int),
            decreases self.players@.len() - i,
        {
            let ghost prev = players@;
            let c = self.players[i].clone();
            players.push(c);
            proof {
                let f = |p: Player| p@;
                assert(prev.map_values(f).len() == prev.len());
                assert(self.players@.map_values(f).len() == self.players@.len());
                assert(prev.len() == i as int);
                assert(players@ == prev.push(c));
                assert forall|j: int| 0 <= j < i as int + 1 implies players@.map_values(f)[j]
                    == self.players@.map_values(f).take(i as int + 1)[j] by {
                    if j < i as int {
                        assert(players@[j] == prev[j]);
                        assert(prev.map_values(f)[j] == self.players@.map_values(f)[j]);
                    } else {
                        assert(players@[j] == c);
                    }
                }
                assert(players@.map_values(f) =~= self.players@.map_values(f).take(i as int + 1));
            }
            i += 1;
        }
        proof {
            let f = |p: Player| p@;
            assert(self.players@.map_values(f).take(self.players@.len() as int)
                =~= self.players@.map_values(f));
        }
        PlayerRegistry { players }
    }
}

} // verus!
