//! Notes: the note payload types, and the text helpers that prepare note
//! fields (cloze deletions and math delimiters).

use vstd::prelude::*;
use std::collections::HashMap;
use crate::client::{AnkiRequest, is_request, is_keyed_request, keyed_value};
use crate::decks::change_deck_request;
use crate::json::{
    Json, JsonView, jstr, obj1, obj2, int_array_view, str_array_view, object_of_string_map,
    object, object1, object2, entry, int_array, string_array, string_map_object,
};
use crate::text::{
    pair_at, find_pair, contains_pair, decimal, lemma_find_pair, lemma_find_pair_skip,
    lemma_find_pair_shift, lemma_decimal_digits, push_char, chars_of,
    push_range, find_pair_from, has_pair_within, push_decimal,
};

verus! {

// ---------------------------------------------------------------------------
// Note payloads
// ---------------------------------------------------------------------------

/// A note to add: its deck, its model (note type), its fields by name, and
/// its tags.
#[derive(Debug, Clone)]
pub struct Note {
    pub deck_name: String,
    pub model_name: String,
    pub fields: HashMap<String, String>,
    pub tags: Vec<String>,
}

/// What AnkiConnect reports about a note.
#[derive(Debug, Clone)]
pub struct NoteInfo {
    pub note_id: i64,
    pub tags: Vec<String>,
    pub fields: HashMap<String, NoteField>,
    pub model_name: String,
    pub cards: Vec<i64>,
}

/// One field of a note: its content and its position.
#[derive(Debug, Clone)]
pub struct NoteField {
    pub value: String,
    pub order: i64,
}

/// A change to a note: new fields and new tags, each only when given.
#[derive(Debug, Clone)]
pub struct NoteUpdate<'a> {
    pub id: i64,
    pub fields: Option<&'a HashMap<String, String>>,
    pub tags: Option<&'a [String]>,
}

/// The characters of each string.
pub open spec fn strings_view(xs: Seq<String>) -> Seq<Seq<char>> {
    xs.map_values(|x: String| x@)
}

/// `j` is the JSON of `note`: `deckName`, `modelName`, `fields` (one string
/// entry per field) and `tags`, in this order.
pub open spec fn is_note_json(j: JsonView, note: Note) -> bool {
    &&& j is Object
    &&& j->Object_0.len() == 4
    &&& j->Object_0[0] == ("deckName"@, jstr(note.deck_name@))
    &&& j->Object_0[1] == ("modelName"@, jstr(note.model_name@))
    &&& j->Object_0[2].0 == "fields"@
    &&& j->Object_0[2].1 is Object
    &&& object_of_string_map(j->Object_0[2].1->Object_0, note.fields@)
    &&& j->Object_0[3] == ("tags"@, str_array_view(strings_view(note.tags@)))
}

/// The JSON of a note.
pub fn note_json(note: &Note) -> (j: Json)
    ensures
        is_note_json(j@, *note),
{
    let deck = Json::Str(note.deck_name.clone());
    let model = Json::Str(note.model_name.clone());
    let fields = string_map_object(&note.fields);
    let tags = string_array(note.tags.as_slice());
    let ghost views = seq![
        ("deckName"@, deck@),
        ("modelName"@, model@),
        ("fields"@, fields@),
        ("tags"@, tags@),
    ];
    let j = object(
        vec![
            entry("deckName", deck),
            entry("modelName", model),
            entry("fields", fields),
            entry("tags", tags),
        ],
    );
    assert(j@->Object_0 =~= views);
    j
}

/// A map of two entries, made with `HashMap::from`.
/// Trusted: the documentation of `HashMap::from` says that the map holds the
/// entries of the array, and only one of those with equal keys; the keys here
/// differ.
#[verifier::external_body]
fn two_entry_map(k1: String, v1: String, k2: String, v2: String) -> (m: HashMap<String, String>)
    requires
        k1@ != k2@,
    ensures
        m@ == Map::empty().insert(k1, v1).insert(k2, v2),
{
    HashMap::from([(k1, v1), (k2, v2)])
}

impl Note {
    /// A note of the standard `Basic` model with the fields `Front` and
    /// `Back`; when `reversed` is set, of the `Basic (and reversed card)`
    /// model, which makes cards both ways. It has no tags.
    pub fn basic(deck: &str, front: &str, back: &str, reversed: bool) -> (n: Note)
        ensures
            n.deck_name@ == deck@,
            n.model_name@ == (if reversed {
                "Basic (and reversed card)"@
            } else {
                "Basic"@
            }),
            n.tags@.len() == 0,
            n.fields@.dom().len() == 2,
            exists|f: String, b: String|
                n.fields@.contains_key(f) && n.fields@.contains_key(b) && f@ == "Front"@ && b@
                    == "Back"@ && n.fields@[f]@ == front@ && n.fields@[b]@ == back@,
    {
        let front_key = String::from_str("Front");
        let back_key = String::from_str("Back");
        let ghost fk = front_key;
        let ghost bk = back_key;
        let front_value = String::from_str(front);
        let back_value = String::from_str(back);
        let ghost fv = front_value;
        let ghost bv = back_value;
        proof {
            reveal_strlit("Front");
            reveal_strlit("Back");
            assert(fk@[0] == 'F' && bk@[0] == 'B');
        }
        let fields = two_entry_map(front_key, front_value, back_key, back_value);
        proof {
            assert(fk != bk);
            assert(fields@.dom() =~= Set::<String>::empty().insert(fk).insert(bk));
            assert(Set::<String>::empty().insert(fk).len() == 1);
            assert(!Set::<String>::empty().insert(fk).contains(bk));
            assert(fields@.contains_key(fk) && fields@.contains_key(bk));
            assert(fields@[fk] == fv && fields@[bk] == bv);
        }
        let model_name = if reversed {
            String::from_str("Basic (and reversed card)")
        } else {
            String::from_str("Basic")
        };
        Note { deck_name: String::from_str(deck), model_name, fields, tags: Vec::new() }
    }

    /// The note with one more tag, added last.
    pub fn with_tag(self, tag: &str) -> (n: Note)
        ensures
            n.deck_name == self.deck_name,
            n.model_name == self.model_name,
            n.fields == self.fields,
            strings_view(n.tags@) == strings_view(self.tags@).push(tag@),
    {
        let mut note = self;
        let ghost old_tags = note.tags@;
        note.tags.push(String::from_str(tag));
        assert(strings_view(note.tags@) =~= strings_view(old_tags).push(tag@));
        note
    }
}

// ---------------------------------------------------------------------------
// Note actions
// ---------------------------------------------------------------------------

/// Adds a single note (`addNote`).
pub fn add_note_request(note: &Note) -> (r: AnkiRequest)
    ensures
        is_keyed_request(r, "addNote"@, "note"@),
        is_note_json(keyed_value(r), *note),
{
    AnkiRequest::new("addNote", Some(object1("note", note_json(note))))
}

/// Adds several notes (`addNotes`).
pub fn add_notes_request(notes: &[Note]) -> (r: AnkiRequest)
    ensures
        is_keyed_request(r, "addNotes"@, "notes"@),
        keyed_value(r) is Array,
        keyed_value(r)->Array_0.len() == notes@.len(),
        forall|i: int|
            0 <= i < notes@.len() ==> is_note_json(#[trigger] keyed_value(r)->Array_0[i], notes@[i]),
{
    let mut items: Vec<Json> = Vec::new();
    let n = notes.len();
    let mut i: usize = 0;
    while i < n
        invariant
            i <= n,
            n == notes@.len(),
            items@.len() == i,
            forall|k: int| 0 <= k < i ==> is_note_json(#[trigger] items@[k]@, notes@[k]),
        decreases n - i,
    {
        items.push(note_json(&notes[i]));
        i = i + 1;
    }
    let ghost its = items@;
    let arr = Json::Array(items);
    assert forall|k: int| 0 <= k < its.len() implies is_note_json(#[trigger] arr@->Array_0[k], notes@[k]) by {
        assert(arr@->Array_0[k] == its[k]@);
    }
    AnkiRequest::new("addNotes", Some(object1("notes", arr)))
}

/// Gets information about notes by their IDs (`notesInfo`).
pub fn notes_info_request(notes: &[i64]) -> (r: AnkiRequest)
    ensures
        is_request(r, "notesInfo"@, Some(obj1("notes"@, int_array_view(notes@)))),
{
    AnkiRequest::new("notesInfo", Some(object1("notes", int_array(notes))))
}

/// Deletes notes by their IDs (`deleteNotes`).
pub fn delete_notes_request(notes: &[i64]) -> (r: AnkiRequest)
    ensures
        is_request(r, "deleteNotes"@, Some(obj1("notes"@, int_array_view(notes@)))),
{
    AnkiRequest::new("deleteNotes", Some(object1("notes", int_array(notes))))
}

/// `j` is `{"id": id, "fields": ...}` with one string entry per field.
pub open spec fn is_note_fields_json(j: JsonView, id: i64, fields: Map<String, String>) -> bool {
    &&& j is Object
    &&& j->Object_0.len() == 2
    &&& j->Object_0[0] == ("id"@, JsonView::Int(id))
    &&& j->Object_0[1].0 == "fields"@
    &&& j->Object_0[1].1 is Object
    &&& object_of_string_map(j->Object_0[1].1->Object_0, fields)
}

/// Updates the fields of an existing note by its ID (`updateNoteFields`).
pub fn update_note_fields_request(note_id: i64, fields: &HashMap<String, String>) -> (r: AnkiRequest)
    ensures
        is_keyed_request(r, "updateNoteFields"@, "note"@),
        is_note_fields_json(keyed_value(r), note_id, fields@),
{
    let inner = object2("id", Json::Int(note_id), "fields", string_map_object(fields));
    AnkiRequest::new("updateNoteFields", Some(object1("note", inner)))
}

/// `j` is the JSON of `update`: `id`, then `fields` when given, then `tags`
/// when given.
pub open spec fn is_note_update_json(j: JsonView, update: NoteUpdate) -> bool {
    &&& j is Object
    &&& {
        let es = j->Object_0;
        let nf: int = if update.fields is Some { 1 } else { 0 };
        let nt: int = if update.tags is Some { 1 } else { 0 };
        &&& es.len() == 1 + nf + nt
        &&& es[0] == ("id"@, JsonView::Int(update.id))
        &&& match update.fields {
            Some(f) => es[1].0 == "fields"@ && es[1].1 is Object && object_of_string_map(
                es[1].1->Object_0,
                f@,
            ),
            None => true,
        }
        &&& match update.tags {
            Some(t) => es[1 + nf] == ("tags"@, str_array_view(strings_view(t@))),
            None => true,
        }
    }
}

/// Updates a note's fields and tags in one go (`updateNote`).
pub fn update_note_request(update: &NoteUpdate) -> (r: AnkiRequest)
    ensures
        is_keyed_request(r, "updateNote"@, "note"@),
        is_note_update_json(keyed_value(r), *update),
{
    let mut entries: Vec<(String, Json)> = Vec::new();
    entries.push(entry("id", Json::Int(update.id)));
    match update.fields {
        Some(f) => {
            entries.push(entry("fields", string_map_object(f)));
        },
        None => {},
    }
    match update.tags {
        Some(t) => {
            entries.push(entry("tags", string_array(t)));
        },
        None => {},
    }
    let ghost es = entries@;
    let inner = object(entries);
    proof {
        let v = inner@->Object_0;
        assert(v == es.map_values(|e: (String, Json)| (e.0@, e.1@)));
        assert(v.len() == es.len());
        assert(v[0] == (es[0].0@, es[0].1@));
    }
    AnkiRequest::new("updateNote", Some(object1("note", inner)))
}

/// What moving a note to a deck asks for, once the note's information is
/// known: the note's cards are moved when there is information about the note
/// and it has cards; otherwise nothing is asked.
pub fn deck_move_request(infos: &[NoteInfo], deck: &str) -> (r: Option<AnkiRequest>)
    ensures
        r is Some <==> (infos@.len() > 0 && infos@[0].cards@.len() > 0),
        r matches Some(q) ==> is_request(
            q,
            "changeDeck"@,
            Some(obj2("cards"@, int_array_view(infos@[0].cards@), "deck"@, jstr(deck@))),
        ),
{
    if infos.len() > 0 && infos[0].cards.len() > 0 {
        Some(change_deck_request(infos[0].cards.as_slice(), deck))
    } else {
        None
    }
}

// ---------------------------------------------------------------------------
// Math delimiters
// ---------------------------------------------------------------------------

/// `$math$`
pub open spec fn typst_inline_text(math: Seq<char>) -> Seq<char> {
    seq!['$'] + math + seq!['$']
}

/// `$$math$$`
pub open spec fn typst_block_text(math: Seq<char>) -> Seq<char> {
    seq!['$', '$'] + math + seq!['$', '$']
}

/// `\(math\)`
pub open spec fn mathjax_inline_text(math: Seq<char>) -> Seq<char> {
    seq!['\\', '('] + math + seq!['\\', ')']
}

/// `\[math\]`
pub open spec fn mathjax_block_text(math: Seq<char>) -> Seq<char> {
    seq!['\\', '['] + math + seq!['\\', ']']
}

fn wrap(open: (char, Option<char>), math: &str, close: (char, Option<char>)) -> (r: String)
    ensures
        r@ == (match open.1 {
            Some(c) => seq![open.0, c],
            None => seq![open.0],
        }) + math@ + (match close.1 {
            Some(c) => seq![close.0, c],
            None => seq![close.0],
        }),
{
    let mut r = String::new();
    push_char(&mut r, open.0);
    if let Some(c) = open.1 {
        push_char(&mut r, c);
    }
    r.append(math);
    push_char(&mut r, close.0);
    if let Some(c) = close.1 {
        push_char(&mut r, c);
    }
    r
}

/// Wraps a string in inline Typst math delimiters (`$...$`).
/// Note: Anki does not support Typst natively. This requires an add-on such as "Typst Math in Anki".
pub fn typst_inline(math: &str) -> (r: String)
    ensures
        r@ == typst_inline_text(math@),
{
    wrap(('$', None), math, ('$', None))
}

/// Wraps a string in block Typst math delimiters (`$$...$$`).
/// Note: Anki does not support Typst natively. This requires an add-on such as "Typst Math in Anki".
pub fn typst_block(math: &str) -> (r: String)
    ensures
        r@ == typst_block_text(math@),
{
    wrap(('$', Some('$')), math, ('$', Some('$')))
}

/// Wraps a string in inline MathJax delimiters (`\(...\)`).
/// MathJax is natively supported by modern Anki out-of-the-box.
pub fn mathjax_inline(math: &str) -> (r: String)
    ensures
        r@ == mathjax_inline_text(math@),
{
    wrap(('\\', Some('(')), math, ('\\', Some(')')))
}

/// Wraps a string in block MathJax delimiters (`\[...\]`).
/// MathJax is natively supported by modern Anki out-of-the-box.
pub fn mathjax_block(math: &str) -> (r: String)
    ensures
        r@ == mathjax_block_text(math@),
{
    wrap(('\\', Some('[')), math, ('\\', Some(']')))
}

// ---------------------------------------------------------------------------
// Obsidian math delimiters
// ---------------------------------------------------------------------------

/// The rewriting of Obsidian math delimiters, read from the left, in the state
/// (`inline`: inside `$...$`, `block`: inside `$$...$$`).
///
/// `$$` closes an open block, opens a block outside of inline math, and is
/// kept as it is inside inline math; `$` closes open inline math, opens inline
/// math outside of a block, and is kept as it is inside a block; every other
/// character is copied.
pub open spec fn obsidian_from(s: Seq<char>, inline: bool, block: bool) -> Seq<char>
    decreases s.len(),
{
    if s.len() == 0 {
        seq![]
    } else if s[0] == '$' {
        if s.len() >= 2 && s[1] == '$' {
            if block {
                seq!['\\', ']'] + obsidian_from(s.skip(2), inline, false)
            } else if !inline {
                seq!['\\', '['] + obsidian_from(s.skip(2), inline, true)
            } else {
                seq!['$', '$'] + obsidian_from(s.skip(2), inline, block)
            }
        } else {
            if inline {
                seq!['\\', ')'] + obsidian_from(s.skip(1), false, block)
            } else if !block {
                seq!['\\', '('] + obsidian_from(s.skip(1), true, block)
            } else {
                seq!['$'] + obsidian_from(s.skip(1), inline, block)
            }
        }
    } else {
        seq![s[0]] + obsidian_from(s.skip(1), inline, block)
    }
}

/// What `format_obsidian` makes of `s`.
pub open spec fn obsidian_text(s: Seq<char>) -> Seq<char> {
    obsidian_from(s, false, false)
}

/// Converts Obsidian-style math delimiters (`$...$` and `$$...$$`)
/// into Anki's native MathJax delimiters (`\(...\)` and `\[...\]`).
/// This allows you to write standard Obsidian text and have it render flawlessly in Anki.
pub fn format_obsidian(text: &str) -> (r: String)
    ensures
        r@ == obsidian_text(text@),
{
    let v = chars_of(text);
    let n = v.len();
    let mut result = String::new();
    let mut in_inline = false;
    let mut in_block = false;
    let mut i: usize = 0;
    assert(v@.skip(0) =~= v@);
    assert(result@ + obsidian_text(text@) =~= obsidian_text(text@));
    while i < n
        invariant
            i <= n,
            n == v@.len(),
            v@ == text@,
            result@ + obsidian_from(v@.skip(i as int), in_inline, in_block) == obsidian_text(text@),
        decreases n - i,
    {
        let ghost rest = v@.skip(i as int);
        let c = v[i];
        if c == '$' {
            if i + 1 < n && v[i + 1] == '$' {
                assert(rest.skip(2) =~= v@.skip(i + 2));
                if in_block {
                    push_char(&mut result, '\\');
                    push_char(&mut result, ']');
                    in_block = false;
                } else if !in_inline {
                    push_char(&mut result, '\\');
                    push_char(&mut result, '[');
                    in_block = true;
                } else {
                    push_char(&mut result, '$');
                    push_char(&mut result, '$');
                }
                i = i + 2;
            } else {
                assert(rest.skip(1) =~= v@.skip(i + 1));
                if in_inline {
                    push_char(&mut result, '\\');
                    push_char(&mut result, ')');
                    in_inline = false;
                } else if !in_block {
                    push_char(&mut result, '\\');
                    push_char(&mut result, '(');
                    in_inline = true;
                } else {
                    push_char(&mut result, '$');
                }
                i = i + 1;
            }
        } else {
            assert(rest.skip(1) =~= v@.skip(i + 1));
            push_char(&mut result, c);
            i = i + 1;
        }
    }
    assert(v@.skip(i as int) =~= Seq::<char>::empty());
    result
}


// ---------------------------------------------------------------------------
// Cloze deletions
// ---------------------------------------------------------------------------

/// The text between `{{` and `}}` already reads as a cloze deletion: it starts
/// with `c` and contains `::`.
pub open spec fn is_cloze_inner(inner: Seq<char>) -> bool {
    inner.len() > 0 && inner[0] == 'c' && contains_pair(inner, ':', ':')
}

/// A closed group `{{inner}}`: kept as it is when `inner` already reads as a
/// cloze deletion, and otherwise `{{c<index>::inner}}`.
pub open spec fn cloze_group(inner: Seq<char>, index: nat) -> Seq<char> {
    if is_cloze_inner(inner) {
        seq!['{', '{'] + inner + seq!['}', '}']
    } else {
        seq!['{', '{', 'c'] + decimal(index) + seq![':', ':'] + inner + seq!['}', '}']
    }
}

/// The number of the next new cloze deletion after the group `{{inner}}`.
pub open spec fn next_cloze_index(inner: Seq<char>, index: nat) -> nat {
    if is_cloze_inner(inner) {
        index
    } else {
        index + 1
    }
}

/// The rewriting of `s` from position `start` on, where `index` is the number
/// that the next new cloze deletion gets.
///
/// From `start`, the first `{{` is looked for; everything before it is
/// copied. When a `}}` follows it, the text between them (`inner`) is kept as
/// it is if it already reads as a cloze deletion, and otherwise becomes
/// `{{c<index>::inner}}` and the index goes up by one; the rewriting goes on
/// after that `}}`. An `{{` with no `}}` after it is copied, and the rewriting
/// goes on right after it. Without any further `{{` the rest is copied.
pub open spec fn cloze_from(s: Seq<char>, start: int, index: nat) -> Seq<char>
    decreases s.len() - start,
{
    if start < 0 || start > s.len() {
        seq![]
    } else {
        let open = find_pair(s, start, '{', '{');
        if open < 0 {
            s.subrange(start, s.len() as int)
        } else {
            proof {
                lemma_find_pair(s, start, '{', '{');
            }
            let after = open + 2;
            let close = find_pair(s, after, '}', '}');
            if close < 0 {
                s.subrange(start, open) + seq!['{', '{'] + cloze_from(s, after, index)
            } else {
                proof {
                    lemma_find_pair(s, after, '}', '}');
                }
                let inner = s.subrange(after, close);
                s.subrange(start, open) + cloze_group(inner, index) + cloze_from(
                    s,
                    close + 2,
                    next_cloze_index(inner, index),
                )
            }
        }
    }
}

/// Appends the rewriting of the closed group `{{v[from..to]}}` and returns the
/// number of the next new cloze deletion.
fn push_cloze_group(out: &mut String, v: &Vec<char>, from: usize, to: usize, index: usize) -> (next:
    usize)
    requires
        from <= to <= v@.len(),
        index < usize::MAX,
    ensures
        final(out)@ == old(out)@ + cloze_group(v@.subrange(from as int, to as int), index as nat),
        next as nat == next_cloze_index(v@.subrange(from as int, to as int), index as nat),
{
    let ghost inner = v@.subrange(from as int, to as int);
    let already = to > from && v[from] == 'c' && has_pair_within(v, from, to, ':', ':');
    assert(already == is_cloze_inner(inner));
    push_char(out, '{');
    push_char(out, '{');
    let next = if already {
        index
    } else {
        push_char(out, 'c');
        push_decimal(out, index);
        push_char(out, ':');
        push_char(out, ':');
        index + 1
    };
    push_range(out, v, from, to);
    push_char(out, '}');
    push_char(out, '}');
    assert(final(out)@ =~= old(out)@ + cloze_group(inner, index as nat));
    next
}

/// What `format_cloze` makes of `s`: new cloze deletions are numbered from 1.
pub open spec fn cloze_text(s: Seq<char>) -> Seq<char> {
    cloze_from(s, 0, 1)
}

/// A utility function to automatically convert `{{hidden text}}` into Anki's
/// cloze format `{{c1::hidden text}}`, incrementing the index for each cloze.
///
/// If the text already appears to be in cloze format (e.g., `{{c1::...}}`), it will be left alone.
pub fn format_cloze(text: &str) -> (r: String)
    ensures
        r@ == cloze_text(text@),
{
    let v = chars_of(text);
    let n = v.len();
    let mut result = String::new();
    let mut index: usize = 1;
    let mut start: usize = 0;
    assert(result@ + cloze_text(text@) =~= cloze_text(text@));
    loop
        invariant_except_break
            result@ + cloze_from(v@, start as int, index as nat) == cloze_text(text@),
        invariant
            start <= n,
            n == v@.len(),
            v@ == text@,
            1 <= index <= start + 1,
        ensures
            result@ == cloze_text(text@),
        decreases n - start,
    {
        proof {
            lemma_find_pair(v@, start as int, '{', '{');
        }
        match find_pair_from(&v, start, '{', '{') {
            None => {
                push_range(&mut result, &v, start, n);
                break ;
            },
            Some(open) => {
                push_range(&mut result, &v, start, open);
                let after_open = open + 2;
                proof {
                    lemma_find_pair(v@, after_open as int, '}', '}');
                }
                match find_pair_from(&v, after_open, '}', '}') {
                    Some(close) => {
                        index = push_cloze_group(&mut result, &v, after_open, close, index);
                        start = close + 2;
                    },
                    None => {
                        push_char(&mut result, '{');
                        push_char(&mut result, '{');
                        start = after_open;
                    },
                }
            },
        }
    }
    result
}


// ---------------------------------------------------------------------------
// Laws of the text helpers
// ---------------------------------------------------------------------------

/// Text without `$` is copied by the delimiter rewriting, in any state.
pub proof fn lemma_obsidian_copies_plain(p: Seq<char>, t: Seq<char>, inline: bool, block: bool)
    requires
        !p.contains('$'),
    ensures
        obsidian_from(p + t, inline, block) == p + obsidian_from(t, inline, block),
    decreases p.len(),
{
    if p.len() > 0 {
        let s = p + t;
        assert(s[0] == p[0]);
        assert(!p.drop_first().contains('$')) by {
            if p.drop_first().contains('$') {
                let k = choose|k: int| 0 <= k < p.drop_first().len() && p.drop_first()[k] == '$';
                assert(p[k + 1] == '$');
            }
        }
        assert(p[0] != '$') by {
            if p[0] == '$' {
                assert(p.contains('$'));
            }
        }
        assert(s.skip(1) =~= p.drop_first() + t);
        lemma_obsidian_copies_plain(p.drop_first(), t, inline, block);
        assert(seq![p[0]] + p.drop_first() =~= p);
        assert(seq![p[0]] + (p.drop_first() + obsidian_from(t, inline, block)) =~= p
            + obsidian_from(t, inline, block));
    } else {
        assert(p + t =~= t);
        assert(p + obsidian_from(t, inline, block) =~= obsidian_from(t, inline, block));
    }
}

/// `format_obsidian` leaves text without `$` as it is.
pub proof fn law_format_obsidian_keeps_plain_text(s: Seq<char>)
    requires
        !s.contains('$'),
    ensures
        obsidian_text(s) == s,
{
    lemma_obsidian_copies_plain(s, seq![], false, false);
    assert(s + seq![] =~= s);
    assert(obsidian_from(Seq::<char>::empty(), false, false) =~= Seq::<char>::empty());
}

/// `format_obsidian` copies a prefix without `$` and rewrites the rest on its own.
pub proof fn law_format_obsidian_plain_prefix(p: Seq<char>, t: Seq<char>)
    requires
        !p.contains('$'),
    ensures
        obsidian_text(p + t) == p + obsidian_text(t),
{
    lemma_obsidian_copies_plain(p, t, false, false);
}

/// `format_obsidian` turns Typst inline math `$m$` into MathJax inline math
/// `\(m\)`, for math `m` that is not empty and holds no `$`, and rewrites what
/// follows on its own, unless it starts with `$`.
pub proof fn law_format_obsidian_inline_math(m: Seq<char>, t: Seq<char>)
    requires
        m.len() > 0,
        !m.contains('$'),
        t.len() == 0 || t[0] != '$',
    ensures
        obsidian_text(typst_inline_text(m) + t) == mathjax_inline_text(m) + obsidian_text(t),
{
    let s = typst_inline_text(m) + t;
    let tail = seq!['$'] + t;
    assert(m[0] != '$') by {
        if m[0] == '$' {
            assert(m.contains('$'));
        }
    }
    assert(s[0] == '$');
    assert(s[1] == m[0]);
    assert(s.skip(1) =~= m + tail);
    lemma_obsidian_copies_plain(m, tail, true, false);
    assert(tail[0] == '$');
    assert(tail.skip(1) =~= t);
    assert(obsidian_from(tail, true, false) == seq!['\\', ')'] + obsidian_from(t, false, false));
    assert(obsidian_from(s, false, false) == seq!['\\', '('] + obsidian_from(s.skip(1), true, false));
    assert(mathjax_inline_text(m) + obsidian_text(t) =~= seq!['\\', '('] + (m + (seq!['\\', ')']
        + obsidian_from(t, false, false))));
}

/// `format_obsidian` turns Typst inline math `$m$` into MathJax inline math
/// `\(m\)`, for math `m` that is not empty and holds no `$`.
pub proof fn law_format_obsidian_of_typst_inline(m: Seq<char>)
    requires
        m.len() > 0,
        !m.contains('$'),
    ensures
        obsidian_text(typst_inline_text(m)) == mathjax_inline_text(m),
{
    law_format_obsidian_inline_math(m, seq![]);
    assert(typst_inline_text(m) + seq![] =~= typst_inline_text(m));
    assert(obsidian_text(Seq::<char>::empty()) =~= Seq::<char>::empty());
    assert(mathjax_inline_text(m) + Seq::<char>::empty() =~= mathjax_inline_text(m));
}

/// `format_obsidian` turns Typst block math `$$m$$` into MathJax block math
/// `\[m\]`, for math `m` that holds no `$`.
pub proof fn law_format_obsidian_of_typst_block(m: Seq<char>)
    requires
        !m.contains('$'),
    ensures
        obsidian_text(typst_block_text(m)) == mathjax_block_text(m),
{
    law_format_obsidian_block_math(m, seq![]);
    assert(typst_block_text(m) + seq![] =~= typst_block_text(m));
    assert(obsidian_text(Seq::<char>::empty()) =~= Seq::<char>::empty());
    assert(mathjax_block_text(m) + Seq::<char>::empty() =~= mathjax_block_text(m));
}

/// `format_obsidian` turns Typst block math `$$m$$` into MathJax block math
/// `\[m\]`, for math `m` that holds no `$`, and rewrites what follows on its own.
pub proof fn law_format_obsidian_block_math(m: Seq<char>, t: Seq<char>)
    requires
        !m.contains('$'),
    ensures
        obsidian_text(typst_block_text(m) + t) == mathjax_block_text(m) + obsidian_text(t),
{
    let s = typst_block_text(m) + t;
    let tail = seq!['$', '$'] + t;
    assert(s[0] == '$' && s[1] == '$');
    assert(s.skip(2) =~= m + tail);
    lemma_obsidian_copies_plain(m, tail, false, true);
    assert(tail[0] == '$' && tail[1] == '$');
    assert(tail.skip(2) =~= t);
    assert(obsidian_from(tail, false, true) == seq!['\\', ']'] + obsidian_from(t, false, false));
    assert(obsidian_from(s, false, false) == seq!['\\', '['] + obsidian_from(s.skip(2), false, true));
    assert(mathjax_block_text(m) + obsidian_text(t) =~= seq!['\\', '['] + (m + (seq!['\\', ']']
        + obsidian_from(t, false, false))));
}

/// Inside block math, text without `$$` is copied, single `$` included, and
/// the state stays as it was, when its last character does not make a `$$`
/// with what follows.
proof fn lemma_obsidian_block_copies(m: Seq<char>, u: Seq<char>)
    requires
        !contains_pair(m, '$', '$'),
        m.len() == 0 || m.last() != '$' || u.len() == 0 || u[0] != '$',
    ensures
        obsidian_from(m + u, false, true) == m + obsidian_from(u, false, true),
    decreases m.len(),
{
    if m.len() == 0 {
        assert(m + u =~= u);
        assert(m + obsidian_from(u, false, true) =~= obsidian_from(u, false, true));
    } else {
        let s = m + u;
        let rest = m.drop_first();
        assert(s.skip(1) =~= rest + u);
        assert(!contains_pair(rest, '$', '$')) by {
            if contains_pair(rest, '$', '$') {
                let j = choose|j: int| pair_at(rest, j, '$', '$');
                assert(pair_at(m, j + 1, '$', '$'));
            }
        }
        if rest.len() > 0 {
            assert(rest.last() == m.last());
        }
        lemma_obsidian_block_copies(rest, u);
        if m[0] == '$' {
            assert(s.len() < 2 || s[1] != '$') by {
                if m.len() >= 2 {
                    assert(!pair_at(m, 0, '$', '$'));
                    assert(s[1] == m[1]);
                } else if u.len() > 0 {
                    assert(m.last() == m[0]);
                    assert(s[1] == u[0]);
                }
            }
        }
        assert(seq![m[0]] + (rest + obsidian_from(u, false, true)) =~= m + obsidian_from(u, false, true));
    }
}

/// A single `$` inside block math is copied and leaves the rewriting state as
/// it was: `$$m$$` becomes `\[m\]`, and what follows is rewritten on its own,
/// for block math `m` that holds no `$$` and does not end with `$` (such a `$`
/// would close the block together with the first `$` of the closing `$$`).
pub proof fn law_format_obsidian_block_keeps_single_dollars(m: Seq<char>, t: Seq<char>)
    requires
        !contains_pair(m, '$', '$'),
        m.len() == 0 || m.last() != '$',
    ensures
        obsidian_text(seq!['$', '$'] + m + seq!['$', '$'] + t) == seq!['\\', '['] + m + seq![
            '\\',
            ']',
        ] + obsidian_text(t),
{
    let s = seq!['$', '$'] + m + seq!['$', '$'] + t;
    let tail = seq!['$', '$'] + t;
    assert(s[0] == '$' && s[1] == '$');
    assert(s.skip(2) =~= m + tail);
    lemma_obsidian_block_copies(m, tail);
    assert(tail[0] == '$' && tail[1] == '$');
    assert(tail.skip(2) =~= t);
    assert(obsidian_from(tail, false, true) == seq!['\\', ']'] + obsidian_from(t, false, false));
    assert(obsidian_from(s, false, false) == seq!['\\', '['] + obsidian_from(s.skip(2), false, true));
    assert(seq!['\\', '['] + m + seq!['\\', ']'] + obsidian_text(t) =~= seq!['\\', '['] + (m + (
    seq!['\\', ']'] + obsidian_from(t, false, false))));
}

/// Every `{{ ... }}` group of `s` from position `start` on already reads as a
/// cloze deletion (groups are found as `cloze_from` finds them).
pub open spec fn clozes_only_from(s: Seq<char>, start: int) -> bool
    decreases s.len() - start,
{
    if start < 0 || start > s.len() {
        true
    } else {
        let open = find_pair(s, start, '{', '{');
        if open < 0 {
            true
        } else {
            proof {
                lemma_find_pair(s, start, '{', '{');
            }
            let after = open + 2;
            let close = find_pair(s, after, '}', '}');
            if close < 0 {
                clozes_only_from(s, after)
            } else {
                proof {
                    lemma_find_pair(s, after, '}', '}');
                }
                is_cloze_inner(s.subrange(after, close)) && clozes_only_from(s, close + 2)
            }
        }
    }
}

proof fn lemma_cloze_keeps(s: Seq<char>, start: int, index: nat)
    requires
        0 <= start <= s.len(),
        clozes_only_from(s, start),
    ensures
        cloze_from(s, start, index) == s.subrange(start, s.len() as int),
    decreases s.len() - start,
{
    let open = find_pair(s, start, '{', '{');
    lemma_find_pair(s, start, '{', '{');
    if open >= 0 {
        let after = open + 2;
        let close = find_pair(s, after, '}', '}');
        lemma_find_pair(s, after, '}', '}');
        if close < 0 {
            lemma_cloze_keeps(s, after, index);
            assert(s.subrange(start, open) + seq!['{', '{'] + s.subrange(after, s.len() as int)
                =~= s.subrange(start, s.len() as int));
        } else {
            lemma_cloze_keeps(s, close + 2, index);
            assert(s.subrange(start, open) + seq!['{', '{'] + s.subrange(after, close) + seq![
                '}',
                '}',
            ] + s.subrange(close + 2, s.len() as int) =~= s.subrange(start, s.len() as int));
        }
    }
}

/// Text whose `{{ ... }}` groups all already read as cloze deletions is left
/// alone by `format_cloze`.
pub proof fn law_format_cloze_keeps_clozes(s: Seq<char>)
    requires
        clozes_only_from(s, 0),
    ensures
        cloze_text(s) == s,
{
    lemma_cloze_keeps(s, 0, 1);
    assert(s.subrange(0, s.len() as int) =~= s);
}

/// Text without `{{` is left alone by `format_cloze`.
pub proof fn law_format_cloze_keeps_plain_text(s: Seq<char>)
    requires
        !contains_pair(s, '{', '{'),
    ensures
        cloze_text(s) == s,
{
    lemma_find_pair(s, 0, '{', '{');
    assert(s.subrange(0, s.len() as int) =~= s);
}

proof fn lemma_subrange_shift(x: Seq<char>, y: Seq<char>, a: int, b: int)
    requires
        0 <= a <= b <= y.len(),
    ensures
        (x + y).subrange(x.len() + a, x.len() + b) == y.subrange(a, b),
{
    assert((x + y).subrange(x.len() + a, x.len() + b) =~= y.subrange(a, b));
}

/// The groups of `x + y` past `x` are the groups of `y`.
proof fn lemma_clozes_shift(x: Seq<char>, y: Seq<char>, j: int)
    requires
        0 <= j <= y.len(),
    ensures
        clozes_only_from(x + y, x.len() + j) == clozes_only_from(y, j),
    decreases y.len() - j,
{
    let s = x + y;
    let k = x.len() as int;
    lemma_find_pair_shift(x, y, j, '{', '{');
    lemma_find_pair(y, j, '{', '{');
    let open = find_pair(y, j, '{', '{');
    if open >= 0 {
        let after = open + 2;
        lemma_find_pair_shift(x, y, after, '}', '}');
        lemma_find_pair(y, after, '}', '}');
        let close = find_pair(y, after, '}', '}');
        if close < 0 {
            lemma_clozes_shift(x, y, after);
        } else {
            lemma_subrange_shift(x, y, after, close);
            lemma_clozes_shift(x, y, close + 2);
        }
    }
}

/// The groups from two starting points are the same when the first `{{` is.
proof fn lemma_clozes_same_open(s: Seq<char>, a: int, b: int)
    requires
        0 <= a <= s.len(),
        0 <= b <= s.len(),
        find_pair(s, a, '{', '{') == find_pair(s, b, '{', '{'),
    ensures
        clozes_only_from(s, a) == clozes_only_from(s, b),
{
}

/// A prefix without `{{` that does not end with `{` holds no group.
proof fn lemma_clozes_plain_prefix(p: Seq<char>, y: Seq<char>)
    requires
        !contains_pair(p, '{', '{'),
        p.len() == 0 || p.last() != '{',
    ensures
        clozes_only_from(p + y, 0) == clozes_only_from(y, 0),
{
    let s = p + y;
    assert forall|j: int| 0 <= j < p.len() implies !#[trigger] pair_at(s, j, '{', '{') by {
        if j + 1 < p.len() {
            if pair_at(s, j, '{', '{') {
                assert(pair_at(p, j, '{', '{'));
            }
        } else {
            assert(s[j] == p.last());
        }
    }
    lemma_find_pair_skip(s, 0, p.len() as int, '{', '{');
    lemma_clozes_same_open(s, 0, p.len() as int);
    lemma_clozes_shift(p, y, 0);
    assert(p + y == s);
}

/// A closed group that already reads as a cloze deletion is passed over.
proof fn lemma_clozes_group(x: Seq<char>, z: Seq<char>)
    requires
        is_cloze_inner(x),
        !contains_pair(x, '}', '}'),
        x.len() == 0 || x.last() != '}',
    ensures
        clozes_only_from(seq!['{', '{'] + x + seq!['}', '}'] + z, 0) == clozes_only_from(z, 0),
{
    let open2 = seq!['{', '{'];
    let rest = x + seq!['}', '}'] + z;
    let s = open2 + rest;
    assert(seq!['{', '{'] + x + seq!['}', '}'] + z =~= s);
    assert(pair_at(s, 0, '{', '{'));
    // The first `}}` after `{{` closes right after `x`.
    assert forall|j: int| 0 <= j < x.len() implies !#[trigger] pair_at(rest, j, '}', '}') by {
        if j + 1 < x.len() {
            if pair_at(rest, j, '}', '}') {
                assert(pair_at(x, j, '}', '}'));
            }
        } else {
            assert(rest[j] == x.last());
        }
    }
    lemma_find_pair_skip(rest, 0, x.len() as int, '}', '}');
    assert(pair_at(rest, x.len() as int, '}', '}'));
    assert(find_pair(rest, 0, '}', '}') == x.len());
    lemma_find_pair_shift(open2, rest, 0, '}', '}');
    assert(find_pair(s, 2, '}', '}') == x.len() + 2);
    assert(s.subrange(2, x.len() + 2 as int) =~= x);
    let prefix = seq!['{', '{'] + x + seq!['}', '}'];
    assert(s =~= prefix + z);
    lemma_clozes_shift(prefix, z, 0);
    assert(prefix.len() == x.len() + 4);
}

/// `{{` followed by text without `}}` that holds only cloze groups holds only
/// cloze groups.
proof fn lemma_clozes_unclosed(w: Seq<char>)
    requires
        !contains_pair(w, '}', '}'),
        clozes_only_from(w, 0),
    ensures
        clozes_only_from(seq!['{', '{'] + w, 0),
{
    let open2 = seq!['{', '{'];
    let s = open2 + w;
    assert(pair_at(s, 0, '{', '{'));
    lemma_find_pair(w, 0, '}', '}');
    lemma_find_pair_shift(open2, w, 0, '}', '}');
    lemma_clozes_shift(open2, w, 0);
}

/// With no `}}` from `start` on, the rest is copied.
proof fn lemma_cloze_copies_without_close(s: Seq<char>, start: int, index: nat)
    requires
        0 <= start <= s.len(),
        find_pair(s, start, '}', '}') == -1,
    ensures
        cloze_from(s, start, index) == s.subrange(start, s.len() as int),
    decreases s.len() - start,
{
    lemma_find_pair(s, start, '{', '{');
    lemma_find_pair(s, start, '}', '}');
    let open = find_pair(s, start, '{', '{');
    if open >= 0 {
        let after = open + 2;
        lemma_find_pair(s, after, '}', '}');
        assert(find_pair(s, after, '}', '}') == -1) by {
            if find_pair(s, after, '}', '}') != -1 {
                assert(pair_at(s, find_pair(s, after, '}', '}'), '}', '}'));
            }
        }
        lemma_cloze_copies_without_close(s, after, index);
        assert(s.subrange(start, open) + seq!['{', '{'] + s.subrange(after, s.len() as int)
            =~= s.subrange(start, s.len() as int));
    }
}

/// The text of a group after rewriting, between `{{` and `}}`.
pub open spec fn cloze_group_inner(inner: Seq<char>, index: nat) -> Seq<char> {
    if is_cloze_inner(inner) {
        inner
    } else {
        seq!['c'] + decimal(index) + seq![':', ':'] + inner
    }
}

proof fn lemma_group_inner(inner: Seq<char>, index: nat)
    requires
        !contains_pair(inner, '}', '}'),
        inner.len() == 0 || inner.last() != '}',
    ensures
        cloze_group(inner, index) == seq!['{', '{'] + cloze_group_inner(inner, index) + seq!['}', '}'],
        is_cloze_inner(cloze_group_inner(inner, index)),
        !contains_pair(cloze_group_inner(inner, index), '}', '}'),
        cloze_group_inner(inner, index).len() == 0 || cloze_group_inner(inner, index).last() != '}',
{
    let x = cloze_group_inner(inner, index);
    if is_cloze_inner(inner) {
        assert(cloze_group(inner, index) =~= seq!['{', '{'] + x + seq!['}', '}']);
    } else {
        let d = decimal(index);
        lemma_decimal_digits(index);
        let head = seq!['c'] + d + seq![':', ':'];
        assert(x =~= head + inner);
        assert(cloze_group(inner, index) =~= seq!['{', '{'] + x + seq!['}', '}']);
        assert(pair_at(x, d.len() + 1 as int, ':', ':'));
        assert forall|i: int| 0 <= i < head.len() implies #[trigger] head[i] != '}' by {
            if 1 <= i < d.len() + 1 {
                assert(head[i] == d[i - 1]);
            }
        }
        assert forall|j: int| !#[trigger] pair_at(x, j, '}', '}') by {
            if pair_at(x, j, '}', '}') {
                if j + 1 < head.len() {
                    assert(x[j] == head[j]);
                } else if j + 1 == head.len() {
                    assert(x[j] == head[j]);
                } else {
                    assert(x[j] == inner[j - head.len()]);
                    assert(x[j + 1] == inner[j + 1 - head.len()]);
                    assert(pair_at(inner, j - head.len(), '}', '}'));
                }
            }
        }
        if inner.len() == 0 {
            assert(x.last() == head.last());
        } else {
            assert(x.last() == inner.last());
        }
    }
}

/// What `format_cloze` writes holds only groups that read as cloze
/// deletions.
proof fn lemma_cloze_output(s: Seq<char>, start: int, index: nat)
    requires
        0 <= start <= s.len(),
    ensures
        clozes_only_from(cloze_from(s, start, index), 0),
    decreases s.len() - start,
{
    lemma_find_pair(s, start, '{', '{');
    let open = find_pair(s, start, '{', '{');
    let out = cloze_from(s, start, index);
    if open < 0 {
        let rest = s.subrange(start, s.len() as int);
        lemma_find_pair_shift(Seq::<char>::empty(), rest, 0, '{', '{');
        assert(Seq::<char>::empty() + rest =~= rest);
        lemma_find_pair_skip(s, start, start, '{', '{');
        assert(find_pair(rest, 0, '{', '{') == -1) by {
            lemma_find_pair(rest, 0, '{', '{');
            if find_pair(rest, 0, '{', '{') >= 0 {
                let j = find_pair(rest, 0, '{', '{');
                assert(pair_at(s, start + j, '{', '{'));
            }
        }
    } else {
        let p = s.subrange(start, open);
        assert(!contains_pair(p, '{', '{')) by {
            if contains_pair(p, '{', '{') {
                let j = choose|j: int| pair_at(p, j, '{', '{');
                assert(pair_at(s, start + j, '{', '{'));
            }
        }
        assert(p.len() == 0 || p.last() != '{') by {
            if p.len() > 0 && p.last() == '{' {
                assert(pair_at(s, open - 1, '{', '{'));
            }
        }
        let after = open + 2;
        lemma_find_pair(s, after, '}', '}');
        let close = find_pair(s, after, '}', '}');
        if close < 0 {
            let w = cloze_from(s, after, index);
            lemma_cloze_output(s, after, index);
            lemma_cloze_copies_without_close(s, after, index);
            assert(!contains_pair(w, '}', '}')) by {
                if contains_pair(w, '}', '}') {
                    let j = choose|j: int| pair_at(w, j, '}', '}');
                    assert(pair_at(s, after + j, '}', '}'));
                }
            }
            lemma_clozes_unclosed(w);
            assert(out =~= p + (seq!['{', '{'] + w));
            lemma_clozes_plain_prefix(p, seq!['{', '{'] + w);
        } else {
            let inner = s.subrange(after, close);
            assert(!contains_pair(inner, '}', '}')) by {
                if contains_pair(inner, '}', '}') {
                    let j = choose|j: int| pair_at(inner, j, '}', '}');
                    assert(pair_at(s, after + j, '}', '}'));
                }
            }
            assert(inner.len() == 0 || inner.last() != '}') by {
                if inner.len() > 0 && inner.last() == '}' {
                    assert(pair_at(s, close - 1, '}', '}'));
                }
            }
            lemma_group_inner(inner, index);
            let x = cloze_group_inner(inner, index);
            let next = next_cloze_index(inner, index);
            let z = cloze_from(s, close + 2, next);
            lemma_cloze_output(s, close + 2, next);
            lemma_clozes_group(x, z);
            assert(out =~= p + (seq!['{', '{'] + x + seq!['}', '}'] + z));
            lemma_clozes_plain_prefix(p, seq!['{', '{'] + x + seq!['}', '}'] + z);
        }
    }
}

/// `format_cloze` is idempotent: what it writes is already in cloze format,
/// so formatting it again leaves it alone.
pub proof fn law_format_cloze_idempotent(s: Seq<char>)
    ensures
        cloze_text(cloze_text(s)) == cloze_text(s),
{
    lemma_cloze_output(s, 0, 1);
    law_format_cloze_keeps_clozes(cloze_text(s));
}

} // verus!
