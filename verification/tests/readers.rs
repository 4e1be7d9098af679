//! What each reader puts where: concrete cases of the routing the readers
//! promise.

use typst_doc::ir::{Block, Inline, LinkDest};
use typst_doc::typ::package::{exports, read_package};
use typst_doc::typst::escape::{escape_text_at, typst_string};
use typst_doc::{man, python, r, typ};

#[test]
fn rd_examples_keep_their_order_and_guards() {
    let rd = r"\name{f}\title{t}\examples{
a <- 1
\dontrun{slow()}
b <- 2
\donttest{  }
}";
    let topic = r::parse(rd).expect("Rd parses");
    let examples: Vec<(&str, bool)> = topic
        .examples
        .iter()
        .map(|e| (e.code.as_str(), e.run))
        .collect();
    assert_eq!(
        examples,
        vec![("a <- 1", true), ("slow()", false), ("b <- 2", true)]
    );
}

#[test]
fn rd_arguments_split_names_on_commas() {
    let rd = r"\name{f}\title{t}\arguments{\item{x, y}{Two values.}\item{ , z}{One more.}}";
    let topic = r::parse(rd).expect("Rd parses");
    let names: Vec<Vec<String>> = topic.params.iter().map(|p| p.names.clone()).collect();
    assert_eq!(names, vec![vec!["x", "y"], vec!["z"]]);
    assert!(topic.params.iter().all(|p| p.ty.is_none() && !p.optional));
}

#[test]
fn rd_sections_keep_source_order() {
    let rd = r"\name{f}\title{t}\format{A list.}\section{Notes}{Body text.}\source{Somewhere.}";
    let topic = r::parse(rd).expect("Rd parses");
    let titles: Vec<String> = topic
        .sections
        .iter()
        .map(|s| typst_doc::ir::to_plain_text(&s.title))
        .collect();
    assert_eq!(titles, vec!["Format", "Notes", "Source"]);
}

#[test]
fn rd_a_later_description_replaces_an_earlier_one() {
    let rd = r"\name{f}\title{t}\description{First.}\description{Second.}";
    let topic = r::parse(rd).expect("Rd parses");
    assert_eq!(topic.description.len(), 1);
    match &topic.description[0] {
        Block::Paragraph(inlines) => {
            assert_eq!(typst_doc::ir::to_plain_text(inlines).trim(), "Second.")
        }
        other => panic!("not a paragraph: {other:?}"),
    }
}

#[test]
fn rd_refusal_carries_the_parsers_message() {
    let error = r::parse("\\name{a\0}").expect_err("a NUL byte is refused");
    assert!(!error.message.is_empty());
}

const SECTIONS_PY: &str = r#"
def f(x):
    """Do it.

    Returns
    -------
    int
        The count.

    Raises
    ------
    KeyError
        When missing.

    See Also
    --------
    g, h

    Examples
    --------
    >>> f(1)
    2
    """
"#;

#[test]
fn python_sections_route_to_their_fields() {
    let topics = python::parse(SECTIONS_PY, "m.py").expect("Python parses");
    assert_eq!(topics.len(), 1);
    let topic = &topics[0];
    assert_eq!(topic.lang.as_deref(), Some("python"));
    assert_eq!(topic.title, vec![Inline::Text("Do it.".into())]);
    assert_eq!(topic.raises.len(), 1);
    assert_eq!(topic.raises[0].names, vec!["KeyError"]);
    assert!(!topic.value.is_empty());
    assert_eq!(topic.examples.len(), 1);
    assert_eq!(topic.examples[0].code, "f(1)");
    assert!(topic.examples[0].run);
    assert!(topic.details.is_empty() && topic.note.is_empty() && topic.author.is_empty());
}

#[test]
fn python_methods_follow_their_class() {
    let source = r#"
class A:
    """A class."""

    def m(self):
        """A method."""

async def g():
    """A coroutine."""
"#;
    let topics = python::parse(source, "pkg/mod.py").expect("Python parses");
    let names: Vec<&str> = topics.iter().map(|t| t.name.as_str()).collect();
    assert_eq!(names, vec!["mod.A", "mod.A.m", "mod.g"]);
    assert_eq!(topics[0].signature, None);
    assert_eq!(topics[2].signature.as_deref(), Some("async def g()"));
}

#[test]
fn typ_a_heading_inside_a_fence_does_not_split_the_body() {
    let source = "/// Title line.\n///\n/// ```typ\n/// = Not a heading\n/// ```\n///\n/// = Returns\n///\n/// A value.\n#let f(x) = x\n";
    let topics = typ::parse(source);
    assert_eq!(topics.len(), 1);
    let topic = &topics[0];
    assert_eq!(topic.title, vec![Inline::Raw("Title line.".into())]);
    assert_eq!(
        topic.description,
        vec![Block::Raw("```typ\n= Not a heading\n```".into())]
    );
    assert_eq!(topic.value, vec![Block::Raw("A value.".into())]);
    assert!(topic.sections.is_empty());
}

#[test]
fn typ_parameters_take_the_run_before_them() {
    let source = "/// Makes a box.\n#let boxed(\n  /// The width.\n  /// -> length\n  width: 1pt,\n  ..rest\n) = none\n";
    let topics = typ::parse(source);
    let topic = &topics[0];
    let names: Vec<Vec<String>> = topic.params.iter().map(|p| p.names.clone()).collect();
    assert_eq!(names, vec![vec!["width"], vec!["..rest"]]);
    assert_eq!(topic.params[0].ty.as_deref(), Some("length"));
    assert_eq!(topic.params[0].default.as_deref(), Some("1pt"));
    assert_eq!(topic.params[0].body, vec![Block::Raw("The width.".into())]);
    assert!(topic.params[1].body.is_empty());
    assert_eq!(topic.signature.as_deref(), Some("boxed(width: 1pt, ..rest)"));
}

const PAGE: &str = r#".TH TOOL 1
.SH NAME
tool \- does things
.SH SYNOPSIS
.SY tool
.OP \-v
.YS
.SH DESCRIPTION
See
.MR other 1 .
.SH EXAMPLES
.EX
tool \-v
.EE
"#;

#[test]
fn man_requests_build_the_page() {
    let topic = man::parse(PAGE).expect("a man page");
    assert_eq!(topic.name, "tool");
    let signature = topic.signature.clone().expect("a synopsis");
    assert!(signature.contains("tool [-v]"), "{signature}");
    assert_eq!(topic.examples.len(), 1);
    assert_eq!(topic.examples[0].code, "tool -v");
    let linked = topic.description.iter().any(|b| match b {
        Block::Paragraph(inlines) => inlines.iter().any(|i| {
            matches!(i, Inline::Link { dest: LinkDest::Topic { topic, .. }, .. } if topic == "other")
        }),
        _ => false,
    });
    assert!(linked, "{:?}", topic.description);
}

#[test]
fn package_named_imports_are_exported_under_their_bound_name() {
    let package = read_package(&vec![
        (
            "pkg/lib.typ".to_string(),
            "#import \"inner.typ\": frob as twiddle\n".to_string(),
        ),
        (
            "pkg/inner.typ".to_string(),
            "/// Frobs.\n#let frob(x) = x\n".to_string(),
        ),
    ]);
    let api = exports("pkg/lib.typ", &package);
    assert_eq!(api.len(), 1);
    assert_eq!(
        api.get("pkg/inner.typ", "frob").map(String::as_str),
        Some("twiddle")
    );
}

#[test]
fn escaping_a_comment_opener_keeps_its_characters() {
    assert_eq!(escape_text_at("a // b", false), "a \\// b");
    assert_eq!(escape_text_at("#x", true), "\\#x");
}

#[test]
fn string_literals_escape_quotes_and_backslashes() {
    assert_eq!(typst_string("say \"hi\" \\ bye"), "\"say \\\"hi\\\" \\\\ bye\"");
}

#[test]
fn man_links_close_with_their_punctuation() {
    let page = ".TH X 1\n.SH NAME\nx \\- t\n.SH DESCRIPTION\nSee\n.UR https://example.org\nthe site\n.UE .\n";
    let topic = man::parse(page).expect("a man page");
    assert_eq!(topic.description.len(), 1);
    match &topic.description[0] {
        Block::Paragraph(inlines) => {
            assert_eq!(inlines.len(), 4, "{inlines:?}");
            assert!(matches!(&inlines[2], Inline::Link { dest: LinkDest::Url(u), children }
                if u == "https://example.org" && typst_doc::ir::to_plain_text(children) == "the site"));
            assert_eq!(inlines[3], Inline::text("."));
            assert_eq!(typst_doc::ir::to_plain_text(inlines), "See the site.");
        }
        other => panic!("{other:?}"),
    }
}

#[test]
fn man_indents_close_into_their_section() {
    let page = ".TH X 1\n.SH NAME\nx \\- t\n.SH DESCRIPTION\nintro\n.RS\nindented\n.RE\nafter\n";
    let topic = man::parse(page).expect("a man page");
    assert_eq!(
        topic.description,
        vec![
            Block::Paragraph(vec![Inline::text("intro")]),
            Block::Group(vec![Block::Paragraph(vec![Inline::text("indented")])]),
            Block::Paragraph(vec![Inline::text("after")]),
        ]
    );
}
