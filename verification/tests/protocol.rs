use std::collections::HashMap;

use anker::cards::{cards_info_request, find_cards_request, suspend_request, unsuspend_request};
use anker::client::{anki_connect_url, reply_outcome, DEFAULT_URL};
use anker::decks::{
    change_deck_request, create_deck_request, deck_names_and_ids_request, deck_names_request,
    delete_decks_request, ignore_outcome,
};
use anker::gui::{
    current_card_outcome, gui_add_cards_request, gui_answer_card_request, gui_browse_request,
    gui_current_card_request,
};
use anker::json::Json;
use anker::media::{retrieve_media_file_request, store_media_file_request, MediaSource};
use anker::models::{model_field_names_request, model_names_request};
use anker::notes::{
    add_note_request, add_notes_request, deck_move_request, delete_notes_request,
    notes_info_request, update_note_fields_request, update_note_request, Note, NoteInfo,
    NoteUpdate,
};
use anker::{AnkiError, AnkiRequest};

/// A compact text form of a JSON document, for comparisons.
fn show(j: &Json) -> String {
    match j {
        Json::Null => "null".to_string(),
        Json::Bool(b) => b.to_string(),
        Json::Int(n) => n.to_string(),
        Json::Str(s) => format!("{:?}", s),
        Json::Array(items) => {
            format!("[{}]", items.iter().map(show).collect::<Vec<_>>().join(","))
        }
        Json::Object(entries) => format!(
            "{{{}}}",
            entries
                .iter()
                .map(|(k, v)| format!("{:?}:{}", k, show(v)))
                .collect::<Vec<_>>()
                .join(",")
        ),
        Json::Raw(v) => v.to_string(),
    }
}

fn body(r: AnkiRequest) -> String {
    show(&r.into_json())
}

#[test]
fn card_requests() {
    assert_eq!(
        body(find_cards_request("deck:Default")),
        r#"{"action":"findCards","version":6,"params":{"query":"deck:Default"}}"#
    );
    assert_eq!(
        body(cards_info_request(&[1, 2])),
        r#"{"action":"cardsInfo","version":6,"params":{"cards":[1,2]}}"#
    );
    assert_eq!(
        body(suspend_request(&[7])),
        r#"{"action":"suspend","version":6,"params":{"cards":[7]}}"#
    );
    assert_eq!(
        body(unsuspend_request(&[])),
        r#"{"action":"unsuspend","version":6,"params":{"cards":[]}}"#
    );
}

#[test]
fn deck_requests() {
    assert_eq!(body(deck_names_request()), r#"{"action":"deckNames","version":6}"#);
    assert_eq!(
        body(deck_names_and_ids_request()),
        r#"{"action":"deckNamesAndIds","version":6}"#
    );
    assert_eq!(
        body(create_deck_request("Rust")),
        r#"{"action":"createDeck","version":6,"params":{"deck":"Rust"}}"#
    );
    assert_eq!(
        body(change_deck_request(&[3, 4], "Languages::Rust")),
        r#"{"action":"changeDeck","version":6,"params":{"cards":[3,4],"deck":"Languages::Rust"}}"#
    );
    assert_eq!(
        body(delete_decks_request(&["A", "B"], true)),
        r#"{"action":"deleteDecks","version":6,"params":{"decks":["A","B"],"cardsToo":true}}"#
    );
}

#[test]
fn gui_media_model_requests() {
    assert_eq!(
        body(gui_browse_request("is:due")),
        r#"{"action":"guiBrowse","version":6,"params":{"query":"is:due"}}"#
    );
    assert_eq!(
        body(gui_add_cards_request(None)),
        r#"{"action":"guiAddCards","version":6,"params":{}}"#
    );
    assert_eq!(
        body(gui_answer_card_request(3)),
        r#"{"action":"guiAnswerCard","version":6,"params":{"ease":3}}"#
    );
    assert_eq!(body(gui_current_card_request()), r#"{"action":"guiCurrentCard","version":6}"#);
    assert_eq!(
        body(store_media_file_request(&MediaSource::Url { filename: "a.png", url: "http://x/a.png" })),
        r#"{"action":"storeMediaFile","version":6,"params":{"filename":"a.png","url":"http://x/a.png"}}"#
    );
    assert_eq!(
        body(store_media_file_request(&MediaSource::Data { filename: "b.txt", data: "aGk=" })),
        r#"{"action":"storeMediaFile","version":6,"params":{"filename":"b.txt","data":"aGk="}}"#
    );
    assert_eq!(
        body(store_media_file_request(&MediaSource::Path { filename: "c.jpg", path: "/tmp/c.jpg" })),
        r#"{"action":"storeMediaFile","version":6,"params":{"filename":"c.jpg","path":"/tmp/c.jpg"}}"#
    );
    assert_eq!(
        body(retrieve_media_file_request("a.png")),
        r#"{"action":"retrieveMediaFile","version":6,"params":{"filename":"a.png"}}"#
    );
    assert_eq!(body(model_names_request()), r#"{"action":"modelNames","version":6}"#);
    assert_eq!(
        body(model_field_names_request("Basic")),
        r#"{"action":"modelFieldNames","version":6,"params":{"modelName":"Basic"}}"#
    );
}

fn sample_note() -> Note {
    let mut fields = HashMap::new();
    fields.insert("Front".to_string(), "Q".to_string());
    Note {
        deck_name: "Default".to_string(),
        model_name: "Basic".to_string(),
        fields,
        tags: vec!["rust".to_string()],
    }
}

#[test]
fn note_requests() {
    let note = sample_note();
    let expected_note = r#"{"deckName":"Default","modelName":"Basic","fields":{"Front":"Q"},"tags":["rust"]}"#;
    assert_eq!(
        body(add_note_request(&note)),
        format!(r#"{{"action":"addNote","version":6,"params":{{"note":{}}}}}"#, expected_note)
    );
    assert_eq!(
        body(add_notes_request(&[note.clone(), note.clone()])),
        format!(
            r#"{{"action":"addNotes","version":6,"params":{{"notes":[{},{}]}}}}"#,
            expected_note, expected_note
        )
    );
    assert_eq!(
        body(gui_add_cards_request(Some(&note))),
        format!(r#"{{"action":"guiAddCards","version":6,"params":{{"note":{}}}}}"#, expected_note)
    );
    assert_eq!(
        body(notes_info_request(&[42])),
        r#"{"action":"notesInfo","version":6,"params":{"notes":[42]}}"#
    );
    assert_eq!(
        body(delete_notes_request(&[42, 43])),
        r#"{"action":"deleteNotes","version":6,"params":{"notes":[42,43]}}"#
    );
    assert_eq!(
        body(update_note_fields_request(42, &note.fields)),
        r#"{"action":"updateNoteFields","version":6,"params":{"note":{"id":42,"fields":{"Front":"Q"}}}}"#
    );
}

#[test]
fn note_update_requests() {
    let note = sample_note();
    let tags = vec!["a".to_string(), "b".to_string()];
    let full = NoteUpdate { id: 5, fields: Some(&note.fields), tags: Some(&tags) };
    assert_eq!(
        body(update_note_request(&full)),
        r#"{"action":"updateNote","version":6,"params":{"note":{"id":5,"fields":{"Front":"Q"},"tags":["a","b"]}}}"#
    );
    let tags_only = NoteUpdate { id: 5, fields: None, tags: Some(&tags) };
    assert_eq!(
        body(update_note_request(&tags_only)),
        r#"{"action":"updateNote","version":6,"params":{"note":{"id":5,"tags":["a","b"]}}}"#
    );
    let bare = NoteUpdate { id: 5, fields: None, tags: None };
    assert_eq!(
        body(update_note_request(&bare)),
        r#"{"action":"updateNote","version":6,"params":{"note":{"id":5}}}"#
    );
}

#[test]
fn note_fields_with_several_entries() {
    let mut fields = HashMap::new();
    fields.insert("Front".to_string(), "Q".to_string());
    fields.insert("Back".to_string(), "A".to_string());
    match update_note_fields_request(1, &fields).params {
        Some(Json::Object(entries)) => match &entries[0].1 {
            Json::Object(inner) => match &inner[1].1 {
                Json::Object(fs) => {
                    let mut got: Vec<String> = fs.iter().map(|(k, v)| format!("{}={}", k, show(v))).collect();
                    got.sort();
                    assert_eq!(got, vec!["Back=\"A\"".to_string(), "Front=\"Q\"".to_string()]);
                }
                _ => panic!("fields is not an object"),
            },
            _ => panic!("note is not an object"),
        },
        _ => panic!("no parameters"),
    }
}

fn info(cards: Vec<i64>) -> NoteInfo {
    NoteInfo {
        note_id: 1,
        tags: vec![],
        fields: HashMap::new(),
        model_name: "Basic".to_string(),
        cards,
    }
}

#[test]
fn deck_move_only_when_there_are_cards() {
    assert!(deck_move_request(&[], "D").is_none());
    assert!(deck_move_request(&[info(vec![])], "D").is_none());
    let r = deck_move_request(&[info(vec![10, 11]), info(vec![12])], "D").unwrap();
    assert_eq!(
        body(r),
        r#"{"action":"changeDeck","version":6,"params":{"cards":[10,11],"deck":"D"}}"#
    );
}

#[test]
fn reply_outcomes() {
    match reply_outcome::<i64>(Some("model was not found".to_string()), Ok(3)) {
        Err(AnkiError::Api(m)) => assert_eq!(m, "model was not found"),
        other => panic!("unexpected {:?}", other),
    }
    match reply_outcome::<i64>(None, Ok(3)) {
        Ok(v) => assert_eq!(v, 3),
        other => panic!("unexpected {:?}", other),
    }
    match reply_outcome::<i64>(None, Err("invalid type: null, expected i64".to_string())) {
        Err(AnkiError::Api(m)) => {
            assert_eq!(m, "Failed to parse result: invalid type: null, expected i64")
        }
        other => panic!("unexpected {:?}", other),
    }
}

#[test]
fn ignored_and_current_card_outcomes() {
    assert!(matches!(ignore_outcome::<i64>(Err(AnkiError::Api("x".to_string()))), Ok(())));
    assert!(matches!(ignore_outcome::<i64>(Ok(1)), Ok(())));
    assert!(matches!(current_card_outcome(Err(AnkiError::Api("x".to_string()))), Ok(None)));
    assert!(matches!(current_card_outcome(Ok(Some(9))), Ok(Some(9))));
    assert!(matches!(current_card_outcome(Ok(None)), Ok(None)));
}

#[test]
fn endpoint_url_choice() {
    assert_eq!(anki_connect_url("http://localhost:9000"), "http://localhost:9000");
    assert_eq!(anki_connect_url("not a url"), DEFAULT_URL);
    assert_eq!(DEFAULT_URL, "http://127.0.0.1:8765");
}

#[test]
fn note_builders() {
    let n = Note::basic("Default", "What is Rust?", "A language.", false)
        .with_tag("programming")
        .with_tag("rust");
    assert_eq!(n.model_name, "Basic");
    assert_eq!(n.deck_name, "Default");
    assert_eq!(n.fields.get("Front").map(String::as_str), Some("What is Rust?"));
    assert_eq!(n.fields.get("Back").map(String::as_str), Some("A language."));
    assert_eq!(n.fields.len(), 2);
    assert_eq!(n.tags, vec!["programming".to_string(), "rust".to_string()]);
    let r = Note::basic("Default", "el perro", "the dog", true);
    assert_eq!(r.model_name, "Basic (and reversed card)");
    assert!(r.tags.is_empty());
}
