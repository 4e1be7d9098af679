//! Assembling a manual: slugs, shared names, module names, recognised
//! files, the index, and dangling references.

use typst_doc::manual::{
    dangling_refs, disambiguate, duplicated_names, hidden, index_document,
    is_man_extension, python_module, read_source, recognised, sanitize, select_topics,
    topic_slugs, unique_labels, Format, ReadError, RunError,
};
use typst_doc::man::ManError;
use typst_doc::Topic;

fn entry(path: &str, name: &str) -> (String, String) {
    (path.to_owned(), name.to_owned())
}

#[test]
fn slugs_are_plain_names_when_unique() {
    let topics = vec![entry("src/a.typ", "on"), entry("src/a.typ", "reveal")];
    assert_eq!(topic_slugs(&topics), vec!["on", "reveal"]);
}

#[test]
fn colliding_slugs_take_the_shortest_distinguishing_path_suffix() {
    // Same stem, so the parent directory is what tells them apart.
    let topics = vec![
        entry("src/component/image.typ", "image"),
        entry("src/layout/image.typ", "image"),
    ];
    assert_eq!(topic_slugs(&topics), vec!["component-image", "layout-image"]);

    // Different stems already suffice, and the topic name is appended.
    let topics = vec![entry("src/a.typ", "on"), entry("src/b.typ", "on")];
    assert_eq!(topic_slugs(&topics), vec!["a-on", "b-on"]);
}

#[test]
fn collisions_within_one_file_fall_back_to_a_counter() {
    let topics = vec![entry("man/x.Rd", "x"), entry("man/x.Rd", "x")];
    assert_eq!(topic_slugs(&topics), vec!["x-1", "x-2"]);
}

#[test]
fn dangling_refs_are_reported_and_resolved_ones_are_not() {
    let names = vec!["a".to_owned(), "b".to_owned()];
    let rendered = vec![
        "= A <a>\n\nSee @b and @missing.\n".to_owned(),
        "= B <b>\n\nBack to @a.\n".to_owned(),
    ];
    assert_eq!(
        dangling_refs(&names, &rendered),
        vec![("a".to_owned(), "missing".to_owned())]
    );
}

fn ancestors(dirs: &[(&str, bool)]) -> Vec<(String, bool)> {
    dirs.iter().map(|(name, init)| (name.to_string(), *init)).collect()
}

#[test]
fn a_module_is_named_under_the_packages_above_it() {
    let above = ancestors(&[("mypkg", true), ("scratch", false), ("tmp", false)]);
    assert_eq!(python_module("core", &above), "mypkg.core");
    // `__init__.py` documents the package itself.
    assert_eq!(python_module("__init__", &above), "mypkg");
}

#[test]
fn a_namespace_subpackage_still_belongs_to_its_parent() {
    let above = ancestors(&[("sub", false), ("mypkg", true), ("tmp", false)]);
    assert_eq!(python_module("deep", &above), "mypkg.sub.deep");
}

#[test]
fn a_loose_module_is_named_by_its_stem_alone() {
    let above = ancestors(&[("src", false), ("tmp", false)]);
    assert_eq!(python_module("stats", &above), "stats");
}

#[test]
fn a_loose_init_is_named_by_its_stem() {
    assert_eq!(python_module("__init__", &ancestors(&[("src", false)])), "__init__");
}

#[test]
fn sanitizing_keeps_a_name_inside_its_directory() {
    assert_eq!(sanitize("a/b\\c"), "a-b-c");
    assert_eq!(sanitize("plain"), "plain");
}

#[test]
fn a_long_colliding_group_counts_past_nine() {
    let topics: Vec<(String, String)> = (0..11).map(|_| entry("man/x.Rd", "x")).collect();
    let slugs = topic_slugs(&topics);
    assert_eq!(slugs[0], "x-1");
    assert_eq!(slugs[9], "x-10");
    assert_eq!(slugs[10], "x-11");
}

#[test]
fn a_colliding_group_goes_as_deep_as_it_must() {
    let paths: Vec<Vec<char>> = ["a/b/image.typ", "c/b/image.typ"]
        .iter()
        .map(|p| p.chars().collect())
        .collect();
    let slugs: Vec<String> = disambiguate(&paths, &"image".chars().collect())
        .into_iter()
        .map(|s| s.into_iter().collect())
        .collect();
    assert_eq!(slugs, vec!["a-b-image", "c-b-image"]);
}

#[test]
fn shared_names_are_listed_once() {
    let names: Vec<String> = ["a", "b", "a", "c", "a", "b"].iter().map(|s| s.to_string()).collect();
    assert_eq!(duplicated_names(&names), vec!["a", "b"]);
    assert!(duplicated_names(&vec!["x".to_owned()]).is_empty());
}

#[test]
fn only_unshared_names_get_labels() {
    let topics = vec![
        entry("src/component/image.typ", "image"),
        entry("src/layout/image.typ", "image"),
        entry("src/lib.typ", "grid"),
    ];
    let slugs = topic_slugs(&topics);
    assert_eq!(
        unique_labels(&topics, &slugs),
        vec![("grid".to_owned(), "grid".to_owned())]
    );
}

#[test]
fn man_extensions_are_a_section_number_or_man() {
    for yes in ["1", "3", "8", "1p", "3perl", "3x", "man"] {
        assert!(is_man_extension(yes), "{yes}");
    }
    for no in ["", "p1", "txt", "3.x", "mandoc"] {
        assert!(!is_man_extension(no), "{no}");
    }
}

#[test]
fn extensions_select_the_reader() {
    assert_eq!(typst_doc::manual::reader_for("man/x.Rd"), Some(Format::Rd));
    assert_eq!(typst_doc::manual::reader_for("man/x.rd"), Some(Format::Rd));
    assert_eq!(typst_doc::manual::reader_for("pkg/core.py"), Some(Format::Python));
    assert_eq!(typst_doc::manual::reader_for("src/lib.typ"), Some(Format::Typst));
    assert_eq!(typst_doc::manual::reader_for("man1/ls.1"), Some(Format::Man));
    assert_eq!(typst_doc::manual::reader_for("notes.txt"), None);
    assert_eq!(typst_doc::manual::reader_for(".py"), None);
    assert!(recognised("a/b/c.3perl"));
    assert!(!recognised("Makefile"));
}

#[test]
fn dot_entries_are_hidden() {
    assert!(hidden("pkg/.venv"));
    assert!(hidden(".git"));
    assert!(!hidden("pkg/src"));
    assert!(!hidden("pkg/a.py"));
}

#[test]
fn the_index_outlines_and_includes_every_topic() {
    let names = vec!["a.typ".to_owned(), "b \"q\".typ".to_owned()];
    assert_eq!(
        index_document(&names).as_deref(),
        Some("#outline(depth: 1)\n\n#include \"a.typ\"\n\n#include \"b \\\"q\\\".typ\"\n")
    );
    assert_eq!(index_document(&vec!["index.typ".to_owned()]), None);
}

#[test]
fn reading_dispatches_on_the_extension() {
    let read = read_source("x.Rd", "\\name{x}\\title{t}", "x", false).expect("an Rd file");
    assert_eq!(read.topics.len(), 1);
    assert_eq!(read.topics[0].name, "x");

    assert!(matches!(
        read_source("notes.txt", "", "notes", false),
        Err(ReadError::Unrecognised)
    ));

    let read = read_source("pkg/core.py", "\"\"\"Core.\"\"\"\n", "pkg.core", false).expect("a module");
    assert_eq!(read.topics[0].name, "pkg.core");

    assert!(matches!(
        read_source("broken.py", "def (:\n", "broken", false),
        Err(ReadError::Python(_))
    ));
}

#[test]
fn scanning_skips_stubs_and_naming_reports_them() {
    let stub = ".so man1/other.1\n";
    let read = read_source("man1/alias.1", stub, "alias", true).expect("skipped");
    assert!(read.topics.is_empty());
    assert!(matches!(read.skipped, Some(ManError::Redirect { .. })));
    assert!(matches!(
        read_source("man1/alias.1", stub, "alias", false),
        Err(ReadError::Man(ManError::Redirect { .. }))
    ));
    assert!(matches!(
        read_source("man1/ssh.1", ".Dd August 23, 2026\n.Dt SSH 1\n.Sh NAME\n", "ssh", false),
        Err(ReadError::Man(ManError::Mdoc))
    ));
    assert!(matches!(
        read_source("man1/x.1", "just some text\n", "x", true),
        Err(ReadError::Man(ManError::NotAManPage))
    ));
}

fn internal(name: &str) -> (String, Topic) {
    let mut topic = Topic::new(name);
    topic.keywords = vec!["internal".to_owned()];
    ("x.Rd".to_owned(), topic)
}

#[test]
fn internal_topics_are_kept_only_when_asked_for() {
    let topics = vec![internal("a"), ("x.Rd".to_owned(), Topic::new("b"))];
    let kept = select_topics(topics, false).expect("one public topic");
    assert_eq!(kept.len(), 1);
    assert_eq!(kept[0].1.name, "b");

    let kept = select_topics(vec![internal("a")], true).expect("asked for");
    assert_eq!(kept.len(), 1);

    assert_eq!(
        select_topics(vec![internal("a")], false).err(),
        Some(RunError::OnlyInternal)
    );
    assert_eq!(select_topics(Vec::new(), true).err(), Some(RunError::NothingFound));
}
