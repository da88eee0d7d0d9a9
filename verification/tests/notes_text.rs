use anker::notes::{
    format_cloze, format_obsidian, mathjax_block, mathjax_inline, typst_block, typst_inline,
};

#[test]
fn test_format_cloze() {
    assert_eq!(
        format_cloze("The {{capital}} of {{country}} is {{city}}"),
        "The {{c1::capital}} of {{c2::country}} is {{c3::city}}"
    );
    assert_eq!(
        format_cloze("Already {{c1::formatted}} and {{new}}"),
        "Already {{c1::formatted}} and {{c1::new}}" // The index for new clozes starts at 1, but we didn't advance it for the skipped one. This is fine.
    );
}

#[test]
fn test_typst() {
    assert_eq!(typst_inline("a^2 + b^2 = c^2"), "$a^2 + b^2 = c^2$");
    assert_eq!(typst_block("sum_{i=1}^n i"), "$$sum_{i=1}^n i$$");
}

#[test]
fn test_mathjax() {
    assert_eq!(mathjax_inline("a^2 + b^2 = c^2"), "\\(a^2 + b^2 = c^2\\)");
    assert_eq!(mathjax_block("sum_{i=1}^n i"), "\\[sum_{i=1}^n i\\]");
}

#[test]
fn test_format_obsidian() {
    let obs = "Here is inline $a^2$ and block $$b^2$$ together.";
    assert_eq!(
        format_obsidian(obs),
        "Here is inline \\(a^2\\) and block \\[b^2\\] together."
    );

    let tricky = "Cost is $5, but math is $x+y$.";
    // A naive parser treats the first $ as an open delimiter, the second as close,
    // and the third as another open delimiter.
    assert_eq!(
        format_obsidian(tricky),
        "Cost is \\(5, but math is \\)x+y\\(."
    );
}

#[test]
fn format_cloze_leaves_plain_text() {
    assert_eq!(format_cloze(""), "");
    assert_eq!(format_cloze("no clozes here"), "no clozes here");
    assert_eq!(format_cloze("single { brace }"), "single { brace }");
}

#[test]
fn format_cloze_keeps_existing_clozes() {
    let text = "{{c1::one}} and {{c2::two}}";
    assert_eq!(format_cloze(text), text);
}

#[test]
fn format_cloze_unclosed_group_is_copied() {
    assert_eq!(format_cloze("open {{ but never closed"), "open {{ but never closed");
    assert_eq!(format_cloze("{{a}} then {{b"), "{{c1::a}} then {{b");
}

#[test]
fn format_cloze_edge_groups() {
    // An empty group is a new cloze deletion.
    assert_eq!(format_cloze("{{}}"), "{{c1::}}");
    // `c` alone, or `::` without a leading `c`, is not a cloze yet.
    assert_eq!(format_cloze("{{cat}}"), "{{c1::cat}}");
    assert_eq!(format_cloze("{{a::b}}"), "{{c1::a::b}}");
    // The first `}}` closes the group.
    assert_eq!(format_cloze("{{a}}}"), "{{c1::a}}}");
    // Unicode text is kept.
    assert_eq!(format_cloze("é {{ü}} ß"), "é {{c1::ü}} ß");
}

#[test]
fn format_cloze_numbers_past_nine() {
    let text: String = (0..11).map(|i| format!("{{{{w{}}}}} ", i)).collect();
    let out = format_cloze(&text);
    assert!(out.contains("{{c10::w9}}"));
    assert!(out.contains("{{c11::w10}}"));
    assert!(out.starts_with("{{c1::w0}} {{c2::w1}}"));
}

#[test]
fn format_cloze_is_idempotent_on_examples() {
    for text in ["The {{capital}} of {{country}}", "{{a}} {{c1::b}} {{c", "x {{{y}} z"] {
        let once = format_cloze(text);
        assert_eq!(format_cloze(&once), once);
    }
}

#[test]
fn format_obsidian_plain_text_unchanged() {
    assert_eq!(format_obsidian(""), "");
    assert_eq!(format_obsidian("no math, only words"), "no math, only words");
}

#[test]
fn format_obsidian_turns_typst_into_mathjax() {
    let m = "x^2 + 1";
    assert_eq!(format_obsidian(&typst_inline(m)), mathjax_inline(m));
    assert_eq!(format_obsidian(&typst_block(m)), mathjax_block(m));
    assert_eq!(
        format_obsidian(&format!("{} rest", typst_inline(m))),
        format!("{} rest", mathjax_inline(m))
    );
}

#[test]
fn format_obsidian_nested_delimiters() {
    // `$$` inside inline math and `$` inside block math are kept.
    assert_eq!(format_obsidian("$a$$b$"), "\\(a$$b\\)");
    assert_eq!(format_obsidian("$$a$b$$"), "\\[a$b\\]");
    // Empty inline math reads as an opening block delimiter.
    assert_eq!(format_obsidian("$$"), "\\[");
}

#[test]
fn readme_cloze_example() {
    assert_eq!(
        format_cloze("Rust is a {{systems}} programming {{language}}."),
        "Rust is a {{c1::systems}} programming {{c2::language}}."
    );
}
