use anker::markdown::{math_items_of, math_with_outputs, MdEvent};
use anker::markdown::{
    markdown_to_anki, markdown_to_anki_with_latex, pandoc_input, typst_math_html,
    typst_math_items,
};

#[test]
fn test_markdown_to_anki() {
    let md = "Here is **bold** and *italic*.\n\nInline $x^2$ and block $$y^2$$.";
    let html = markdown_to_anki(md);

    assert!(html.contains("<strong>bold</strong>"));
    assert!(html.contains("<em>italic</em>"));
    assert!(html.contains("\\(x^2\\)"));
    assert!(html.contains("\\[y^2\\]"));
}

#[test]
fn markdown_to_anki_exact_paragraph() {
    assert_eq!(
        markdown_to_anki("Compute $a+b$ now"),
        "<p>Compute \\(a+b\\) now</p>"
    );
}

#[test]
fn markdown_to_anki_tables_and_strikethrough() {
    let html = markdown_to_anki("~~gone~~\n\n| a | b |\n|---|---|\n| 1 | 2 |\n");
    assert!(html.contains("<del>gone</del>"));
    assert!(html.contains("<table>"));
}

#[test]
fn typst_items_in_order() {
    let items = typst_math_items("A $x$ then $$y$$ and $z$.");
    assert_eq!(
        items,
        vec![
            ("x".to_string(), false),
            ("y".to_string(), true),
            ("z".to_string(), false)
        ]
    );
    assert!(typst_math_items("no math").is_empty());
}

#[test]
fn pandoc_input_forms() {
    assert_eq!(pandoc_input("sum_(i=1)^n i", false), "$sum_(i=1)^n i$");
    assert_eq!(pandoc_input("sum_(i=1)^n i", true), "$ sum_(i=1)^n i $");
}

#[test]
fn typst_math_html_uses_trimmed_pandoc_output() {
    assert_eq!(
        typst_math_html("x", false, Some("  \\(\\sum x\\)\n")),
        "\\(\\sum x\\)"
    );
    assert_eq!(typst_math_html("x", false, Some("\u{3000}\t y \u{85}")), "y");
    assert_eq!(typst_math_html("x", false, Some(" \n ")), "");
}

#[test]
fn typst_math_html_falls_back_to_mathjax() {
    assert_eq!(typst_math_html("x^2", false, None), "\\(x^2\\)");
    assert_eq!(typst_math_html("x^2", true, None), "\\[x^2\\]");
}

#[test]
fn markdown_to_anki_with_latex_without_pandoc_output() {
    // Without Pandoc output every piece of math falls back to MathJax.
    let md = "Typst math: $sum_(i=1)^n i$";
    let html = markdown_to_anki_with_latex(md, &Vec::new());
    assert!(html.contains("\\("));
    assert_eq!(html, markdown_to_anki(md));
}

#[test]
fn markdown_with_latex_replaces_in_order() {
    let md = "A $x$ and $y$ and $z$";
    let outputs = vec![Some(" X1 ".to_string()), None];
    let html = markdown_to_anki_with_latex(md, &outputs);
    assert_eq!(html, "<p>A X1 and \\(y\\) and \\(z\\)</p>");
}

#[test]
fn readme_markdown_example() {
    let html = markdown_to_anki("Here is **bold**, *italic*, and an equation: $$a^2 + b^2 = c^2$$");
    assert_eq!(
        html,
        "<p>Here is <strong>bold</strong>, <em>italic</em>, and an equation: \\[a^2 + b^2 = c^2\\]</p>"
    );
}

#[test]
fn markdown_to_anki_keeps_breaks_between_blocks() {
    // Only the line break after the last block is dropped.
    assert_eq!(markdown_to_anki("one\n\ntwo"), "<p>one</p>\n<p>two</p>");
    assert_eq!(markdown_to_anki(""), "");
}

#[test]
fn math_items_and_outputs_on_parsed_events() {
    let events = vec![
        MdEvent::InlineMath("x".to_string()),
        MdEvent::Html("<hr>".to_string()),
        MdEvent::DisplayMath("y".to_string()),
    ];
    assert_eq!(
        math_items_of(&events),
        vec![("x".to_string(), false), ("y".to_string(), true)]
    );
    let out = math_with_outputs(events, &vec![Some(" X ".to_string())]);
    let texts: Vec<String> = out
        .into_iter()
        .map(|e| match e {
            MdEvent::Html(h) => h,
            _ => "other".to_string(),
        })
        .collect();
    assert_eq!(texts, vec!["X".to_string(), "<hr>".to_string(), "\\[y\\]".to_string()]);
}
