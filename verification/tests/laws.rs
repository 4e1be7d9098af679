//! The library's laws on concrete values.

use typst_doc::ir::{to_plain_text, Inline};
use typst_doc::manual::unique_labels;
use typst_doc::typst::escape::{escape_text_at, indent_continuation, typst_string};
use typst_doc::{topic_to_typst, Entry, Options, Topic};

#[test]
fn plain_text_of_two_runs_is_their_texts_joined() {
    let a = vec![Inline::text("one "), Inline::Strong(vec![Inline::text("two")])];
    let b = vec![Inline::LineBreak, Inline::Code("three".to_string())];
    let mut both = vec![Inline::text("one "), Inline::Strong(vec![Inline::text("two")])];
    both.push(Inline::LineBreak);
    both.push(Inline::Code("three".to_string()));
    assert_eq!(to_plain_text(&both), to_plain_text(&a) + &to_plain_text(&b));
    assert_eq!(to_plain_text(&both), "one two three");
}

#[test]
fn string_literals_stay_on_one_line() {
    let s = typst_string("a\nb\r\tc\"");
    assert_eq!(s, "\"a\\nb\\r\\tc\\\"\"");
    assert!(!s.contains('\n'));
    assert!(s.starts_with('"') && s.ends_with('"'));
}

#[test]
fn indentation_goes_line_by_line() {
    assert_eq!(indent_continuation("first\nsecond\n\nthird", 2), "first\n  second\n\n  third");
    assert_eq!(indent_continuation("only", 4), "only");
}

#[test]
fn escaped_prose_opens_no_comment() {
    assert_eq!(escape_text_at("x //y /*z*/ w/v", false), "x \\//y \\/\\*z\\*/ w/v");
    assert_eq!(escape_text_at("/a", true), "\\/a");
}

#[test]
fn a_document_opens_with_its_name_and_an_empty_topic_has_no_sections() {
    let topic = Topic::new("plain");
    let doc = topic_to_typst(&topic, &Entry::default(), &Options::default());
    assert!(doc.starts_with("#let doc-name = \"plain\"\n"), "{doc}");
    assert!(doc.contains("\n#let doc-sections = ()\n"), "{doc}");
}

#[test]
fn run_wide_labels_name_each_topic_once() {
    let entries = vec![
        ("a.Rd".to_string(), "x".to_string()),
        ("b.Rd".to_string(), "y".to_string()),
        ("c.Rd".to_string(), "x".to_string()),
    ];
    let slugs = vec!["x-a".to_string(), "y".to_string(), "x-c".to_string()];
    let labels = unique_labels(&entries, &slugs);
    assert_eq!(labels, vec![("y".to_string(), "y".to_string())]);
}

#[test]
fn math_in_a_section_title_brings_in_the_import_once() {
    let mut topic = Topic::new("f");
    topic.sections.push(typst_doc::ir::Section {
        title: vec![Inline::text("On "), Inline::Math("x^2".to_string())],
        body: vec![],
    });
    let doc = topic_to_typst(&topic, &Entry::default(), &Options::default());
    let import = "#import \"@preview/mitex:0.2.7\": mi, mitex\n\n";
    assert!(doc.starts_with(import), "{doc}");
    assert_eq!(doc.matches("#import \"@preview/mitex").count(), 1);
}

#[test]
fn escaped_prose_keeps_every_special_character_behind_a_backslash() {
    assert_eq!(escape_text_at("a#b*c_d`e$f", false), "a\\#b\\*c\\_d\\`e\\$f");
    assert_eq!(typst_string("say \"no\""), "\"say \\\"no\\\"\"");
}
