//! Decks: the requests of the deck actions.

use vstd::prelude::*;
use crate::client::{AnkiRequest, is_request};
use crate::error::Result;
use crate::json::{
    JsonView, jstr, obj1, obj2, int_array_view, str_array_view, object1, object2, int_array,
    str_array, text,
};

verus! {

/// Gets the names of all decks (`deckNames`).
pub fn deck_names_request() -> (r: AnkiRequest)
    ensures
        is_request(r, "deckNames"@, None),
{
    AnkiRequest::new("deckNames", None)
}

/// Gets the names of all decks and their IDs (`deckNamesAndIds`).
pub fn deck_names_and_ids_request() -> (r: AnkiRequest)
    ensures
        is_request(r, "deckNamesAndIds"@, None),
{
    AnkiRequest::new("deckNamesAndIds", None)
}

/// Creates a new deck (`createDeck`).
pub fn create_deck_request(deck: &str) -> (r: AnkiRequest)
    ensures
        is_request(r, "createDeck"@, Some(obj1("deck"@, jstr(deck@)))),
{
    AnkiRequest::new("createDeck", Some(object1("deck", text(deck))))
}

/// Changes the deck of the given cards (`changeDeck`).
pub fn change_deck_request(cards: &[i64], deck: &str) -> (r: AnkiRequest)
    ensures
        is_request(
            r,
            "changeDeck"@,
            Some(obj2("cards"@, int_array_view(cards@), "deck"@, jstr(deck@))),
        ),
{
    AnkiRequest::new("changeDeck", Some(object2("cards", int_array(cards), "deck", text(deck))))
}

/// Deletes decks, and their cards when `cards_too` is set (`deleteDecks`).
pub fn delete_decks_request(decks: &[&str], cards_too: bool) -> (r: AnkiRequest)
    ensures
        is_request(
            r,
            "deleteDecks"@,
            Some(
                obj2(
                    "decks"@,
                    str_array_view(decks@.map_values(|d: &str| d@)),
                    "cardsToo"@,
                    JsonView::Bool(cards_too),
                ),
            ),
        ),
{
    AnkiRequest::new(
        "deleteDecks",
        Some(object2("decks", str_array(decks), "cardsToo", crate::json::Json::Bool(cards_too))),
    )
}

/// Changing and deleting decks report success whatever the reply was: the
/// outcome of the call is set aside.
pub fn ignore_outcome<R>(outcome: Result<R>) -> (r: Result<()>)
    ensures
        r matches Ok(()),
{
    let _ = outcome;
    Ok(())
}

} // verus!
