//! The Anki user interface: the requests of the GUI actions.

use vstd::prelude::*;
use crate::client::{AnkiRequest, is_request, is_keyed_request, keyed_value};
use crate::error::Result;
use crate::json::{Json, JsonView, jstr, obj1, object, object1, text};
use crate::notes::{Note, is_note_json, note_json};

verus! {

/// Opens the Anki browser with the specified query (`guiBrowse`).
pub fn gui_browse_request(query: &str) -> (r: AnkiRequest)
    ensures
        is_request(r, "guiBrowse"@, Some(obj1("query"@, jstr(query@)))),
{
    AnkiRequest::new("guiBrowse", Some(object1("query", text(query))))
}

/// Opens the Add dialog (`guiAddCards`), filled with the note when there is
/// one; without a note the parameters are an empty object.
pub fn gui_add_cards_request(note: Option<&Note>) -> (r: AnkiRequest)
    ensures
        match note {
            Some(n) => is_keyed_request(r, "guiAddCards"@, "note"@) && is_note_json(
                keyed_value(r),
                *n,
            ),
            None => is_request(r, "guiAddCards"@, Some(JsonView::Object(seq![]))),
        },
{
    let params = match note {
        Some(n) => object1("note", note_json(n)),
        None => {
            let j = object(Vec::new());
            assert(j@->Object_0 =~= Seq::<(Seq<char>, JsonView)>::empty());
            j
        },
    };
    AnkiRequest::new("guiAddCards", Some(params))
}

/// Reviews the current card by answering with the given ease (`guiAnswerCard`).
pub fn gui_answer_card_request(ease: i32) -> (r: AnkiRequest)
    ensures
        is_request(r, "guiAnswerCard"@, Some(obj1("ease"@, JsonView::Int(ease as i64)))),
{
    AnkiRequest::new("guiAnswerCard", Some(object1("ease", Json::Int(ease as i64))))
}

/// Asks for the card that is being reviewed (`guiCurrentCard`).
pub fn gui_current_card_request() -> (r: AnkiRequest)
    ensures
        is_request(r, "guiCurrentCard"@, None),
{
    AnkiRequest::new("guiCurrentCard", None)
}

/// The current card is `None` when the call failed (there is none out of
/// review), and otherwise what AnkiConnect answered.
pub fn current_card_outcome(outcome: Result<Option<i64>>) -> (r: Result<Option<i64>>)
    ensures
        r == Ok::<Option<i64>, crate::error::AnkiError>(
            match outcome {
                Ok(card) => card,
                Err(_) => None,
            },
        ),
{
    match outcome {
        Ok(card) => Ok(card),
        Err(_) => Ok(None),
    }
}

} // verus!
