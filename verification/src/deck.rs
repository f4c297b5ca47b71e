//! Deck payloads. A deck is data the engine stores for a player and hands
//! back on request; the engine never looks inside one, so the outside deck
//! type is carried through opaquely.

use vstd::prelude::*;

verus! {

/// Relies on mtgjson::DeckSet being an ordinary data struct (strings and
/// vectors of card records); the engine stores and returns values of it
/// without reading them.
#[verifier::external_type_specification]
#[verifier::external_body]
pub struct ExDeckSet(mtgjson::DeckSet);

/// Relies on mtgjson::DeckSet's derived Clone, a field-for-field copy of a
/// struct of plain data: the clone is the same deck value.
pub assume_specification[ <mtgjson::DeckSet as Clone>::clone ](d: &mtgjson::DeckSet) -> (r:
    mtgjson::DeckSet)
    ensures
        r == *d,
;

} // verus!
