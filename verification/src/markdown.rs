//! Markdown to Anki HTML: Markdown is parsed and rendered by `pulldown_cmark`;
//! the library rewrites the math events in between.

use vstd::prelude::*;
use pulldown_cmark::{Event, Options, Parser, html};
use crate::notes::{mathjax_inline_text, mathjax_block_text, mathjax_inline, mathjax_block};
use crate::text::{push_char, trim, trimmed, chars_of, push_range};

verus! {

#[verifier::external_type_specification]
#[verifier::external_body]
pub struct ExMarkdownEvent<'a>(Event<'a>);

/// One event of a parsed Markdown document, as far as the library reads it:
/// math is taken apart, HTML is what the library puts in, and every other
/// event is carried through as `pulldown_cmark` produced it.
pub enum MdEvent {
    InlineMath(String),
    DisplayMath(String),
    Html(String),
    Other(Event<'static>),
}

/// The model of an [`MdEvent`]: text is seen as its characters.
pub enum MdEventView {
    InlineMath(Seq<char>),
    DisplayMath(Seq<char>),
    Html(Seq<char>),
    Other(Event<'static>),
}

impl View for MdEvent {
    type V = MdEventView;

    open spec fn view(&self) -> MdEventView {
        match self {
            MdEvent::InlineMath(m) => MdEventView::InlineMath(m@),
            MdEvent::DisplayMath(m) => MdEventView::DisplayMath(m@),
            MdEvent::Html(h) => MdEventView::Html(h@),
            MdEvent::Other(e) => MdEventView::Other(*e),
        }
    }
}

/// The models of a sequence of events.
pub open spec fn events_view(events: Seq<MdEvent>) -> Seq<MdEventView> {
    events.map_values(|e: MdEvent| e@)
}

/// The events that `pulldown_cmark` parses from `text` with the given
/// extensions switched on.
pub uninterp spec fn markdown_events(
    text: Seq<char>,
    math: bool,
    strikethrough: bool,
    tables: bool,
) -> Seq<MdEventView>;

/// The HTML that `pulldown_cmark` renders from `events`.
pub uninterp spec fn rendered_html(events: Seq<MdEventView>) -> Seq<char>;

/// Parses Markdown with `pulldown_cmark::Parser::new_ext`, with the math,
/// strikethrough and tables extensions switched on as asked.
/// Trusted: the events are those of `pulldown_cmark`, math events are taken
/// apart and every other event is kept; what the parser produces is a function
/// of the text and the options alone, named `markdown_events`.
#[verifier::external_body]
fn parse_markdown(text: &str, math: bool, strikethrough: bool, tables: bool) -> (events: Vec<
    MdEvent,
>)
    ensures
        events_view(events@) == markdown_events(text@, math, strikethrough, tables),
{
    let mut options = Options::empty();
    options.set(Options::ENABLE_MATH, math);
    options.set(Options::ENABLE_STRIKETHROUGH, strikethrough);
    options.set(Options::ENABLE_TABLES, tables);
    Parser::new_ext(text, options).map(|event| match event {
        Event::InlineMath(m) => MdEvent::InlineMath(m.to_string()),
        Event::DisplayMath(m) => MdEvent::DisplayMath(m.to_string()),
        other => MdEvent::Other(other.into_static()),
    }).collect()
}

/// Renders events to HTML with `pulldown_cmark::html::push_html`.
/// Trusted: the HTML is what `push_html` writes for the events, a function of
/// the events alone, named `rendered_html`.
#[verifier::external_body]
fn render_html(events: Vec<MdEvent>) -> (html: String)
    ensures
        html@ == rendered_html(events_view(events@)),
{
    let mut out = String::new();
    html::push_html(&mut out, events.into_iter().map(|e| match e {
        MdEvent::InlineMath(m) => Event::InlineMath(m.into()),
        MdEvent::DisplayMath(m) => Event::DisplayMath(m.into()),
        MdEvent::Html(h) => Event::Html(h.into()),
        MdEvent::Other(e) => e,
    }));
    out
}

/// `html` without its last character when that is a line break.
pub open spec fn without_final_newline(html: Seq<char>) -> Seq<char> {
    if html.len() > 0 && html.last() == '\n' {
        html.drop_last()
    } else {
        html
    }
}

/// Drops the line break that ends rendered HTML, if there is one.
pub fn strip_final_newline(html: String) -> (r: String)
    ensures
        r@ == without_final_newline(html@),
{
    let v = chars_of(html.as_str());
    let n = v.len();
    if n > 0 && v[n - 1] == '\n' {
        let mut r = String::new();
        push_range(&mut r, &v, 0, n - 1);
        assert(r@ =~= html@.drop_last());
        r
    } else {
        html
    }
}

/// Math in Anki's MathJax delimiters, as raw HTML; other events stay.
pub open spec fn anki_math_event(e: MdEventView) -> MdEventView {
    match e {
        MdEventView::InlineMath(m) => MdEventView::Html(mathjax_inline_text(m)),
        MdEventView::DisplayMath(m) => MdEventView::Html(mathjax_block_text(m)),
        _ => e,
    }
}

/// The events with all math in Anki's MathJax delimiters.
pub open spec fn anki_math_events(events: Seq<MdEventView>) -> Seq<MdEventView> {
    events.map_values(|e: MdEventView| anki_math_event(e))
}

/// Replaces every math event by raw HTML that holds the math in MathJax
/// delimiters (`\(...\)` inline, `\[...\]` for display math).
pub fn math_to_mathjax(events: Vec<MdEvent>) -> (out: Vec<MdEvent>)
    ensures
        events_view(out@) == anki_math_events(events_view(events@)),
{
    let ghost input = events@;
    let mut out: Vec<MdEvent> = Vec::new();
    for e in it: events
        invariant
            it.seq() == input,
            out@.len() == it.index(),
            forall|j: int|
                0 <= j < it.index() ==> #[trigger] out@[j]@ == anki_math_event(input[j]@),
    {
        let converted = match e {
            MdEvent::InlineMath(m) => MdEvent::Html(mathjax_inline(m.as_str())),
            MdEvent::DisplayMath(m) => MdEvent::Html(mathjax_block(m.as_str())),
            other => other,
        };
        out.push(converted);
    }
    assert(events_view(out@) =~= anki_math_events(events_view(input)));
    out
}

/// Converts Obsidian/Markdown text into HTML suitable for Anki.
///
/// It converts formatting like **bold** and *italic* into HTML `<strong>` and `<em>` tags (via markdown parsing),
/// and seamlessly transforms Obsidian math delimiters (`$...$` and `$$...$$`)
/// into Anki's native MathJax delimiters (`\(...\)` and `\[...\]`).
/// The HTML is what the renderer writes, without its final line break.
pub fn markdown_to_anki(text: &str) -> (html: String)
    ensures
        html@ == without_final_newline(
            rendered_html(anki_math_events(markdown_events(text@, true, true, true))),
        ),
{
    let events = parse_markdown(text, true, true, true);
    let converted = math_to_mathjax(events);
    strip_final_newline(render_html(converted))
}


// ---------------------------------------------------------------------------
// Typst math through Pandoc
// ---------------------------------------------------------------------------

/// The math items of a document, in order: the math and whether it is
/// display math.
pub open spec fn math_items(events: Seq<MdEventView>) -> Seq<(Seq<char>, bool)>
    decreases events.len(),
{
    if events.len() == 0 {
        seq![]
    } else {
        match events[0] {
            MdEventView::InlineMath(m) => seq![(m, false)] + math_items(events.drop_first()),
            MdEventView::DisplayMath(m) => seq![(m, true)] + math_items(events.drop_first()),
            _ => math_items(events.drop_first()),
        }
    }
}

/// The Typst source that Pandoc is given for one piece of math: `$ m $` for
/// display math, `$m$` for inline math.
pub open spec fn pandoc_input_text(math: Seq<char>, is_block: bool) -> Seq<char> {
    if is_block {
        seq!['$', ' '] + math + seq![' ', '$']
    } else {
        seq!['$'] + math + seq!['$']
    }
}

/// The HTML for one piece of Typst math: what Pandoc printed, trimmed, when it
/// succeeded, and otherwise the math as it is in MathJax delimiters.
pub open spec fn typst_fragment(math: Seq<char>, is_block: bool, pandoc_output: Option<Seq<char>>) -> Seq<
    char,
> {
    match pandoc_output {
        Some(out) => trimmed(out),
        None => if is_block {
            mathjax_block_text(math)
        } else {
            mathjax_inline_text(math)
        },
    }
}

/// What Pandoc printed for each piece of math, in order, seen as characters.
pub open spec fn outputs_view(outputs: Seq<Option<String>>) -> Seq<Option<Seq<char>>> {
    outputs.map_values(
        |o: Option<String>|
            match o {
                Some(s) => Some(s@),
                None => None,
            },
    )
}

/// The outputs that are left after `k` of them were used (none once all are).
pub open spec fn outputs_after(outputs: Seq<Option<Seq<char>>>, k: int) -> Seq<Option<Seq<char>>> {
    if k <= outputs.len() {
        outputs.skip(k)
    } else {
        seq![]
    }
}

/// The events with the `k`-th piece of math replaced by raw HTML made from the
/// `k`-th Pandoc output (math without an output falls back to MathJax).
pub open spec fn typst_events(events: Seq<MdEventView>, outputs: Seq<Option<Seq<char>>>) -> Seq<
    MdEventView,
>
    decreases events.len(),
{
    if events.len() == 0 {
        seq![]
    } else {
        let out0 = if outputs.len() > 0 {
            outputs[0]
        } else {
            None
        };
        match events[0] {
            MdEventView::InlineMath(m) => seq![MdEventView::Html(typst_fragment(m, false, out0))]
                + typst_events(events.drop_first(), outputs_after(outputs, 1)),
            MdEventView::DisplayMath(m) => seq![MdEventView::Html(typst_fragment(m, true, out0))]
                + typst_events(events.drop_first(), outputs_after(outputs, 1)),
            _ => seq![events[0]] + typst_events(events.drop_first(), outputs),
        }
    }
}

/// The Typst source to hand to Pandoc for one piece of math.
pub fn pandoc_input(math: &str, is_block: bool) -> (r: String)
    ensures
        r@ == pandoc_input_text(math@, is_block),
{
    let mut r = String::new();
    push_char(&mut r, '$');
    if is_block {
        push_char(&mut r, ' ');
    }
    r.append(math);
    if is_block {
        push_char(&mut r, ' ');
    }
    push_char(&mut r, '$');
    assert(r@ =~= pandoc_input_text(math@, is_block));
    r
}

/// The HTML for one piece of Typst math, given what Pandoc printed for it
/// (`None` when Pandoc could not be run or failed): Pandoc's LaTeX, trimmed,
/// or else the math in MathJax delimiters.
pub fn typst_math_html(math: &str, is_block: bool, pandoc_output: Option<&str>) -> (r: String)
    ensures
        r@ == typst_fragment(
            math@,
            is_block,
            match pandoc_output {
                Some(o) => Some(o@),
                None => None,
            },
        ),
{
    match pandoc_output {
        Some(out) => trim(out),
        None => if is_block {
            mathjax_block(math)
        } else {
            mathjax_inline(math)
        },
    }
}

proof fn lemma_math_items_append(a: Seq<MdEventView>, b: Seq<MdEventView>)
    ensures
        math_items(a + b) == math_items(a) + math_items(b),
    decreases a.len(),
{
    if a.len() == 0 {
        assert(a + b =~= b);
        assert(math_items(a) + math_items(b) =~= math_items(b));
    } else {
        assert((a + b).drop_first() =~= a.drop_first() + b);
        lemma_math_items_append(a.drop_first(), b);
        assert((a + b)[0] == a[0]);
        match a[0] {
            MdEventView::InlineMath(m) => {
                assert(seq![(m, false)] + (math_items(a.drop_first()) + math_items(b)) =~= seq![
                    (m, false),
                ] + math_items(a.drop_first()) + math_items(b));
            },
            MdEventView::DisplayMath(m) => {
                assert(seq![(m, true)] + (math_items(a.drop_first()) + math_items(b)) =~= seq![
                    (m, true),
                ] + math_items(a.drop_first()) + math_items(b));
            },
            _ => {},
        }
    }
}

/// The items as (characters, display) pairs.
pub open spec fn items_view(items: Seq<(String, bool)>) -> Seq<(Seq<char>, bool)> {
    items.map_values(|it: (String, bool)| (it.0@, it.1))
}

/// The math items of parsed events, in order: the math and whether it is
/// display math.
pub fn math_items_of(events: &Vec<MdEvent>) -> (items: Vec<(String, bool)>)
    ensures
        items_view(items@) == math_items(events_view(events@)),
{
    let ghost evs = events_view(events@);
    let mut items: Vec<(String, bool)> = Vec::new();
    let n = events.len();
    let mut i: usize = 0;
    assert(items_view(items@) =~= math_items(evs.take(0)));
    while i < n
        invariant
            i <= n,
            n == events@.len(),
            evs == events_view(events@),
            items_view(items@) == math_items(evs.take(i as int)),
        decreases n - i,
    {
        proof {
            assert(evs.take(i + 1) =~= evs.take(i as int) + seq![evs[i as int]]);
            lemma_math_items_append(evs.take(i as int), seq![evs[i as int]]);
            assert(seq![evs[i as int]].drop_first() =~= Seq::<MdEventView>::empty());
            assert(math_items(Seq::<MdEventView>::empty()) =~= Seq::<(Seq<char>, bool)>::empty());
            assert(evs[i as int] == events@[i as int]@);
        }
        let ghost one = math_items(seq![evs[i as int]]);
        match &events[i] {
            MdEvent::InlineMath(m) => {
                assert(one =~= seq![(m@, false)]);
                items.push((m.clone(), false));
            },
            MdEvent::DisplayMath(m) => {
                assert(one =~= seq![(m@, true)]);
                items.push((m.clone(), true));
            },
            _ => {
                assert(one =~= Seq::<(Seq<char>, bool)>::empty());
            },
        }
        i = i + 1;
        assert(items_view(items@) =~= math_items(evs.take(i as int)));
    }
    assert(evs.take(n as int) =~= evs);
    items
}

/// The math of a Markdown document, in order, for Pandoc to translate: each
/// item is the math and whether it is display math.
pub fn typst_math_items(text: &str) -> (items: Vec<(String, bool)>)
    ensures
        items_view(items@) == math_items(markdown_events(text@, true, true, true)),
{
    let events = parse_markdown(text, true, true, true);
    math_items_of(&events)
}

/// The events with the `k`-th piece of math replaced by raw HTML made from
/// `pandoc_outputs[k]`, what Pandoc printed for it (`None` where Pandoc could
/// not translate it); such math, and math beyond the outputs, is kept in
/// MathJax delimiters.
pub fn math_with_outputs(events: Vec<MdEvent>, pandoc_outputs: &Vec<Option<String>>) -> (out: Vec<
    MdEvent,
>)
    ensures
        events_view(out@) == typst_events(events_view(events@), outputs_view(pandoc_outputs@)),
{
    let ghost evs = events_view(events@);
    let ghost ov = outputs_view(pandoc_outputs@);
    let mut out: Vec<MdEvent> = Vec::new();
    let mut k: usize = 0;
    let ghost n = events.len();
    assert(evs.skip(0) =~= evs);
    assert(outputs_after(ov, 0) =~= ov);
    assert(events_view(out@) + typst_events(evs, ov) =~= typst_events(evs, ov));
    for e in it: events
        invariant
            it.seq() == events@,
            evs == events_view(events@),
            ov == outputs_view(pandoc_outputs@),
            k <= it.index(),
            n == events@.len(),
            n <= usize::MAX,
            events_view(out@) + typst_events(evs.skip(it.index() as int), outputs_after(ov, k as int))
                == typst_events(evs, ov),
    {
        let ghost idx = it.index() as int;
        let ghost rest = evs.skip(idx);
        let ghost oa = outputs_after(ov, k as int);
        proof {
            assert(rest[0] == e@);
            assert(rest.drop_first() =~= evs.skip(idx + 1));
            if k < ov.len() {
                assert(outputs_after(oa, 1) =~= outputs_after(ov, k + 1));
                assert(oa[0] == ov[k as int]);
            } else {
                assert(oa =~= Seq::<Option<Seq<char>>>::empty());
                assert(outputs_after(oa, 1) =~= outputs_after(ov, k + 1));
            }
        }
        let is_math = match &e {
            MdEvent::InlineMath(_) => true,
            MdEvent::DisplayMath(_) => true,
            _ => false,
        };
        let converted = if is_math {
            let output: Option<&str> = if k < pandoc_outputs.len() {
                match &pandoc_outputs[k] {
                    Some(o) => Some(o.as_str()),
                    None => None,
                }
            } else {
                None
            };
            let c = match e {
                MdEvent::InlineMath(m) => MdEvent::Html(typst_math_html(m.as_str(), false, output)),
                MdEvent::DisplayMath(m) => MdEvent::Html(typst_math_html(m.as_str(), true, output)),
                other => other,
            };
            k = k + 1;
            c
        } else {
            e
        };
        let ghost before = out@;
        out.push(converted);
        assert(events_view(out@) =~= events_view(before) + seq![converted@]);
    }
    assert(evs.skip(evs.len() as int) =~= Seq::<MdEventView>::empty());
    assert(events_view(out@) + Seq::<MdEventView>::empty() =~= events_view(out@));
    out
}

/// Converts Obsidian/Markdown text into HTML for Anki, with each piece of math
/// replaced by what Pandoc made of it: `pandoc_outputs[k]` is what Pandoc printed
/// for the `k`-th item of [`typst_math_items`], or `None` where Pandoc could not
/// translate it; such math, and math beyond the outputs, is kept in MathJax
/// delimiters. The HTML is what the renderer writes, without its final line
/// break.
pub fn markdown_to_anki_with_latex(text: &str, pandoc_outputs: &Vec<Option<String>>) -> (html:
    String)
    ensures
        html@ == without_final_newline(
            rendered_html(
                typst_events(markdown_events(text@, true, true, true), outputs_view(pandoc_outputs@)),
            ),
        ),
{
    let events = parse_markdown(text, true, true, true);
    let converted = math_with_outputs(events, pandoc_outputs);
    strip_final_newline(render_html(converted))
}

proof fn lemma_typst_without_outputs(events: Seq<MdEventView>, outputs: Seq<Option<Seq<char>>>)
    requires
        forall|i: int| 0 <= i < outputs.len() ==> outputs[i] is None,
    ensures
        typst_events(events, outputs) == anki_math_events(events),
    decreases events.len(),
{
    if events.len() == 0 {
        assert(anki_math_events(events) =~= Seq::<MdEventView>::empty());
    } else {
        let rest_outputs = outputs_after(outputs, 1);
        assert forall|i: int| 0 <= i < rest_outputs.len() implies rest_outputs[i] is None by {
            assert(rest_outputs[i] == outputs[i + 1]);
        }
        lemma_typst_without_outputs(events.drop_first(), rest_outputs);
        lemma_typst_without_outputs(events.drop_first(), outputs);
        assert(anki_math_events(events) =~= seq![anki_math_event(events[0])] + anki_math_events(
            events.drop_first(),
        ));
    }
}

/// When Pandoc translates none of the math, the Typst conversion renders
/// exactly what `markdown_to_anki` renders: all math falls back to MathJax.
pub proof fn law_typst_falls_back_to_mathjax(text: Seq<char>, outputs: Seq<Option<Seq<char>>>)
    requires
        forall|i: int| 0 <= i < outputs.len() ==> outputs[i] is None,
    ensures
        without_final_newline(
            rendered_html(typst_events(markdown_events(text, true, true, true), outputs)),
        ) == without_final_newline(
            rendered_html(anki_math_events(markdown_events(text, true, true, true))),
        ),
{
    lemma_typst_without_outputs(markdown_events(text, true, true, true), outputs);
}

/// Math turned into MathJax: every inline math event `m` becomes the raw
/// HTML `\(m\)` and every display math event `m` the raw HTML `\[m\]`, at the
/// same place, whatever `m` holds; every other event stays as it is.
pub proof fn law_math_becomes_mathjax(events: Seq<MdEventView>)
    ensures
        anki_math_events(events).len() == events.len(),
        forall|i: int|
            0 <= i < events.len() ==> (match #[trigger] events[i] {
                MdEventView::InlineMath(m) => anki_math_events(events)[i] == MdEventView::Html(
                    seq!['\\', '('] + m + seq!['\\', ')'],
                ),
                MdEventView::DisplayMath(m) => anki_math_events(events)[i] == MdEventView::Html(
                    seq!['\\', '['] + m + seq!['\\', ']'],
                ),
                _ => anki_math_events(events)[i] == events[i],
            }),
{
}

/// Pandoc's output is used as it is, trimmed, for inline and display math
/// alike: the fragment for math with an output is that output without its
/// leading and trailing whitespace, whatever the math was; without an output
/// the math is put in `\(...\)` or `\[...\]`.
pub proof fn law_pandoc_output_used_as_is(math: Seq<char>, is_block: bool, output: Seq<char>)
    ensures
        typst_fragment(math, is_block, Some(output)) == trimmed(output),
        typst_fragment(math, true, Some(output)) == typst_fragment(math, false, Some(output)),
        typst_fragment(math, false, None) == seq!['\\', '('] + math + seq!['\\', ')'],
        typst_fragment(math, true, None) == seq!['\\', '['] + math + seq!['\\', ']'],
{
}

} // verus!
