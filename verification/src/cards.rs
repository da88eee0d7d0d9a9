//! Cards: the card information that AnkiConnect reports, and the requests of
//! the card actions.

use vstd::prelude::*;
use std::collections::HashMap;
use crate::client::{AnkiRequest, is_request};
use crate::json::{jstr, obj1, int_array_view, object1, int_array, text};

verus! {

/// What AnkiConnect reports about a card.
#[derive(Debug, Clone)]
pub struct CardInfo {
    pub card_id: i64,
    pub fields: HashMap<String, CardField>,
    pub field_order: i64,
    pub question: String,
    pub answer: String,
    pub model_name: String,
    pub ord: i64,
    pub deck_name: String,
    pub css: String,
    pub factor: i64,
    pub interval: i64,
    pub note_id: i64,
    pub card_type: i64,
    pub queue: i64,
    pub due: i64,
    pub reps: i64,
    pub lapses: i64,
    pub left: i64,
}

/// One field of a card: its content and its position.
#[derive(Debug, Clone)]
pub struct CardField {
    pub value: String,
    pub order: i64,
}

/// Finds cards using Anki's search syntax (`findCards`).
pub fn find_cards_request(query: &str) -> (r: AnkiRequest)
    ensures
        is_request(r, "findCards"@, Some(obj1("query"@, jstr(query@)))),
{
    AnkiRequest::new("findCards", Some(object1("query", text(query))))
}

/// Gets information about cards by their IDs (`cardsInfo`).
pub fn cards_info_request(cards: &[i64]) -> (r: AnkiRequest)
    ensures
        is_request(r, "cardsInfo"@, Some(obj1("cards"@, int_array_view(cards@)))),
{
    AnkiRequest::new("cardsInfo", Some(object1("cards", int_array(cards))))
}

/// Suspends the given cards (`suspend`).
pub fn suspend_request(cards: &[i64]) -> (r: AnkiRequest)
    ensures
        is_request(r, "suspend"@, Some(obj1("cards"@, int_array_view(cards@)))),
{
    AnkiRequest::new("suspend", Some(object1("cards", int_array(cards))))
}

/// Unsuspends the given cards (`unsuspend`).
pub fn unsuspend_request(cards: &[i64]) -> (r: AnkiRequest)
    ensures
        is_request(r, "unsuspend"@, Some(obj1("cards"@, int_array_view(cards@)))),
{
    AnkiRequest::new("unsuspend", Some(object1("cards", int_array(cards))))
}

} // verus!
