//! A tournament participant: identity, display name, optional in-game name,
//! lifecycle status, and the player's registered decks. Players are owned by
//! the player registry and are never physically removed; a player who leaves
//! is kept with status `Dropped` so that historical round data stays intact.

use vstd::prelude::*;

use crate::error::TournamentError;
use crate::identifiers::PlayerId;

verus! {

/// Where a player stands in the tournament's lifecycle.
#[derive(Debug, Clone, Copy, PartialEq, Eq, Structural)]
pub enum PlayerStatus {
    /// Registered and able to play.
    Registered,
    /// Checked in at the venue and able to play.
    CheckedIn,
    /// Out of the tournament; kept for the historical record.
    Dropped,
}

/// One participant.
#[derive(Debug)]
pub struct Player {
    pub id: PlayerId,
    pub name: String,
    pub game_name: Option<String>,
    pub status: PlayerStatus,
    /// The player's decks, keyed by deck name. Names are unique (see `wf`).
    pub decks: Vec<(String, mtgjson::DeckSet)>,
}

/// The observable content of a deck collection: names as character
/// sequences, keyed in registration order.
pub open spec fn decks_view(s: Seq<(String, mtgjson::DeckSet)>) -> Seq<(
    Seq<char>,
    mtgjson::DeckSet,
)> {
    s.map_values(|e: (String, mtgjson::DeckSet)| (e.0@, e.1))
}

/// The observable content of a `Player`: strings as character sequences,
/// decks as a name-keyed association sequence.
pub struct PlayerView {
    pub id: u128,
    pub name: Seq<char>,
    pub game_name: Option<Seq<char>>,
    pub status: PlayerStatus,
    pub decks: Seq<(Seq<char>, mtgjson::DeckSet)>,
}

impl View for Player {
    type V = PlayerView;

    open spec fn view(&self) -> PlayerView {
        PlayerView {
            id: self.id.0,
            name: self.name@,
            game_name: match self.game_name {
                Some(ref g) => Some(g@),
                None => None,
            },
            status: self.status,
            decks: decks_view(self.decks@),
        }
    }
}

/// Whether some deck in `s` bears the name `name`.
pub open spec fn has_deck(s: Seq<(Seq<char>, mtgjson::DeckSet)>, name: Seq<char>) -> bool {
    exists|i: int| 0 <= i < s.len() && s[i].0 == name
}

/// The index of the deck named `name`; meaningful only under `decks_wf`,
/// which makes the index unique.
pub open spec fn deck_index_of(s: Seq<(Seq<char>, mtgjson::DeckSet)>, name: Seq<char>) -> int {
    choose|i: int| 0 <= i < s.len() && s[i].0 == name
}

/// Deck names are unique within one player's collection.
pub open spec fn decks_wf(s: Seq<(Seq<char>, mtgjson::DeckSet)>) -> bool {
    forall|i: int, j: int| 0 <= i < j < s.len() ==> s[i].0 != s[j].0
}

/// `s` with the deck named `name` replaced by `deck`, or with `(name, deck)`
/// appended if no deck bears that name yet.
pub open spec fn spec_add_deck(
    s: Seq<(Seq<char>, mtgjson::DeckSet)>,
    name: Seq<char>,
    deck: mtgjson::DeckSet,
) -> Seq<(Seq<char>, mtgjson::DeckSet)> {
    if has_deck(s, name) {
        s.update(deck_index_of(s, name), (name, deck))
    } else {
        s.push((name, deck))
    }
}

/// `s` without the deck named `name` (unchanged if there is none).
pub open spec fn spec_remove_deck(
    s: Seq<(Seq<char>, mtgjson::DeckSet)>,
    name: Seq<char>,
) -> Seq<(Seq<char>, mtgjson::DeckSet)> {
    if has_deck(s, name) {
        s.remove(deck_index_of(s, name))
    } else {
        s
    }
}

/// Under `decks_wf`, the deck index is the only index bearing its name.
pub proof fn lemma_deck_index_unique(
    s: Seq<(Seq<char>, mtgjson::DeckSet)>,
    name: Seq<char>,
    i: int,
)
    requires
        decks_wf(s),
        0 <= i < s.len(),
        s[i].0 == name,
    ensures
        has_deck(s, name),
        deck_index_of(s, name) == i,
{
    assert(has_deck(s, name));
    let k = deck_index_of(s, name);
    assert(0 <= k < s.len() && s[k].0 == name);
    if k < i {
        assert(s[k].0 != s[i].0);
    } else if i < k {
        assert(s[i].0 != s[k].0);
    }
}

impl Player {
    /// The player's internal invariant: deck names are unique.
    pub open spec fn wf(&self) -> bool {
        decks_wf(self@.decks)
    }

    /// A freshly registered player with no decks and no in-game name.
    pub fn new(id: PlayerId, name: String) -> (r: Player)
        ensures
            r@ == (PlayerView {
                id: id.0,
                name: name@,
                game_name: None::<Seq<char>>,
                status: PlayerStatus::Registered,
                decks: Seq::<(Seq<char>, mtgjson::DeckSet)>::empty(),
            }),
            r.wf(),
    {
        let r = Player {
            id,
            name,
            game_name: None,
            status: PlayerStatus::Registered,
            decks: Vec::new(),
        };
        proof {
            assert(r@.decks =~= Seq::<(Seq<char>, mtgjson::DeckSet)>::empty());
            assert(r@.game_name == None::<Seq<char>>);
        }
        r
    }

    /// Whether the player may still be paired into new rounds.
    pub fn can_play(&self) -> (r: bool)
        ensures
            r == (self@.status != PlayerStatus::Dropped),
    {
        match self.status {
            PlayerStatus::Dropped => false,
            _ => true,
        }
    }

    /// Replaces the player's in-game name.
    pub fn set_game_name(&mut self, name: String)
        ensures
            final(self)@ == (PlayerView { game_name: Some(name@), ..old(self)@ }),
            final(self).wf() == old(self).wf(),
    {
        self.game_name = Some(name);
    }

    /// Moves the player to a new lifecycle status.
    pub fn set_status(&mut self, status: PlayerStatus)
        ensures
            final(self)@ == (PlayerView { status: status, ..old(self)@ }),
            final(self).wf() == old(self).wf(),
    {
        self.status = status;
    }

    /// Adds a deck under `name`, replacing any deck already under that name.
    pub fn add_deck(&mut self, name: String, deck: mtgjson::DeckSet)
        requires
            old(self).wf(),
        ensures
            final(self)@ == (PlayerView {
                decks: spec_add_deck(old(self)@.decks, name@, deck),
                ..old(self)@
            }),
            final(self).wf(),
    {
        let ghost dv = self@.decks;
        let mut i: usize = 0;
        while i < self.decks.len()
            invariant
                *self == *old(self),
                dv == self@.decks,
                decks_wf(dv),
                i <= self.decks.len(),
                forall|j: int| 0 <= j < i ==> dv[j].0 != name@,
            decreases self.decks.len() - i,
        {
            if compare_strings(&self.decks[i].0, &name) {
                proof {
                    assert(dv[i as int].0 == name@);
                    lemma_deck_index_unique(dv, name@, i as int);
                }
                self.decks.set(i, (name, deck));
                proof {
                    assert(self@.decks =~= spec_add_deck(dv, name@, deck));
                }
                return ;
            }
            i += 1;
        }
        proof {
            assert(!has_deck(dv, name@));
        }
        self.decks.push((name, deck));
        proof {
            assert(self@.decks =~= dv.push((name@, deck)));
        }
    }

    /// Hands back a copy of the deck registered under `name`, if any.
    pub fn get_deck(&self, name: &String) -> (r: Option<mtgjson::DeckSet>)
        requires
            self.wf(),
        ensures
            match r {
                Some(d) => has_deck(self@.decks, name@) && d == self@.decks[deck_index_of(
                    self@.decks,
                    name@,
                )].1,
                None => !has_deck(self@.decks, name@),
            },
    {
        let mut i: usize = 0;
        while i < self.decks.len()
            invariant
                self.wf(),
                i <= self.decks.len(),
                forall|j: int| 0 <= j < i ==> self@.decks[j].0 != name@,
            decreases self.decks.len() - i,
        {
            if compare_strings(&self.decks[i].0, name) {
                proof {
                    assert(self@.decks[i as int].0 == name@);
                    lemma_deck_index_unique(self@.decks, name@, i as int);
                }
                return Some(self.decks[i].1.clone());
            }
            i += 1;
        }
        proof {
            assert(!has_deck(self@.decks, name@));
        }
        None
    }

    /// Removes the deck registered under `name`; fails with `DeckLookup` if
    /// there is none.
    pub fn remove_deck(&mut self, name: &String) -> (r: Result<(), TournamentError>)
        requires
            old(self).wf(),
        ensures
            final(self).wf(),
            r is Ok <==> has_deck(old(self)@.decks, name@),
            r is Err ==> r == Err::<(), TournamentError>(TournamentError::DeckLookup)
                && *final(self) == *old(self),
            final(self)@ == (PlayerView {
                decks: spec_remove_deck(old(self)@.decks, name@),
                ..old(self)@
            }),
    {
        let ghost dv = self@.decks;
        let mut i: usize = 0;
        while i < self.decks.len()
            invariant
                *self == *old(self),
                dv == self@.decks,
                decks_wf(dv),
                i <= self.decks.len(),
                forall|j: int| 0 <= j < i ==> dv[j].0 != name@,
            decreases self.decks.len() - i,
        {
            if compare_strings(&self.decks[i].0, name) {
                proof {
                    assert(dv[i as int].0 == name@);
                    lemma_deck_index_unique(dv, name@, i as int);
                }
                self.decks.remove(i);
                proof {
                    assert(self@.decks =~= dv.remove(i as int));
                }
                return Ok(());
            }
            i += 1;
        }
        proof {
            assert(!has_deck(dv, name@));
        }
        Err(TournamentError::DeckLookup)
    }
}

/// String equality by content.
pub fn compare_strings(a: &String, b: &String) -> (r: bool)
    ensures
        r == (a@ == b@),
{
    *a == *b
}

} // verus!
