//! The man(7) reader: roff manual-page source to a [`Topic`].
//!
//! The dialect is man(7) — the `.TH`/`.SH`/`.TP` macro package every Linux
//! page is written in — plus the low-level roff escapes those pages use for
//! fonts (`\fB`), special characters (`\(bu`), and comments (`\"`). BSD's
//! semantic mdoc(7) macros are a different language and are not read here.
//!
//! The reader works in two passes. The first is purely syntactic
//! ([`parser`]): roff lines become blocks, with `.TP` runs collapsing into
//! term lists. The second ([`assemble`]) reads the section *titles* and
//! routes each section to the field it belongs in.

pub mod roff;
pub mod special;
pub mod sink;
pub mod parser;
pub mod usage;
pub mod names;
pub mod fields;
pub mod assemble;

pub use assemble::ManError;

use vstd::prelude::*;

use crate::ir::Topic;
use crate::man::assemble::{assembled, doc_name, names_an_entry};
use crate::man::parser::{fresh, reads, Document, Parser};
use crate::man::roff::strip_comment_spec;
use crate::text::{chars_of, lines_from, lines_of, push_chars, push_str, starts_with, string_of, trim};

verus! {

impl ManError {
    /// What went wrong, in words.
    pub fn message(&self) -> (r: String)
        ensures
            r@ == error_message(*self),
    {
        let mut out: Vec<char> = Vec::new();
        match self {
            ManError::NotAManPage => push_str(
                &mut out,
                "not a man page: no .TH header and no .SH NAME section",
            ),
            ManError::Redirect { target } => {
                push_str(&mut out, "a redirect to ");
                push_chars(&mut out, &chars_of(target.as_str()));
                push_str(&mut out, ", not a page of its own");
            },
            ManError::Mdoc => push_str(&mut out, "an mdoc(7) page; this reader accepts man(7)"),
        }
        string_of(out.as_slice())
    }
}

pub open spec fn error_message(e: ManError) -> Seq<char> {
    match e {
        ManError::NotAManPage => "not a man page: no .TH header and no .SH NAME section"@,
        ManError::Redirect { target } => "a redirect to "@ + target@ + ", not a page of its own"@,
        ManError::Mdoc => "an mdoc(7) page; this reader accepts man(7)"@,
    }
}

/// Scanning the lines of a file from `i` for a `.so` stub: blank lines
/// aside, one `.so` request and nothing else.
pub open spec fn redirect_scan(lines: Seq<Seq<char>>, i: int, target: Option<Seq<char>>) -> Option<
    Seq<char>,
>
    decreases lines.len() - i,
{
    if i < 0 || i >= lines.len() {
        target
    } else {
        let line = trim(strip_comment_spec(lines[i]));
        if line.len() == 0 {
            redirect_scan(lines, i + 1, target)
        } else if starts_with(line, ".so "@) && target is None {
            redirect_scan(lines, i + 1, Some(trim(line.subrange(4, line.len() as int))))
        } else {
            None
        }
    }
}

/// The target of a `.so` stub, if the file is one.
pub open spec fn redirect_spec(source: Seq<char>) -> Option<Seq<char>> {
    redirect_scan(lines_from(source, 0), 0, None)
}

/// Whether a line opens an mdoc(7) page.
pub open spec fn mdoc_line(line: Seq<char>) -> bool {
    starts_with(line, ".Dd "@) || starts_with(line, ".Dt "@) || line == ".Dd"@
}

/// Whether the source is mdoc(7) rather than man(7): its own macro package,
/// with its own vocabulary.
pub open spec fn is_mdoc_spec(source: Seq<char>) -> bool {
    exists|i: int| 0 <= i < lines_from(source, 0).len() && #[trigger] mdoc_line(lines_from(source, 0)[i])
}

/// The target of a `.so` stub, if the file is one.
///
/// Such a file has no content of its own: `man` reads the named page in its
/// place. Resolving it needs the manual tree the file came from, which a
/// reader taking a string does not have.
fn redirect(source: &Vec<char>) -> (r: Option<Vec<char>>)
    ensures
        match r {
            Some(t) => redirect_spec(source@) == Some(t@),
            None => redirect_spec(source@) is None,
        },
{
    let lines = lines_of(source);
    let ghost ls = crate::text::char_views(lines@);
    let mut target: Option<Vec<char>> = None;
    let mut i: usize = 0;
    while i < lines.len()
        invariant
            i <= lines.len(),
            ls == crate::text::char_views(lines@),
            ls == lines_from(source@, 0),
            redirect_spec(source@) == redirect_scan(
                ls,
                i as int,
                match target {
                    Some(t) => Some(t@),
                    None => None,
                },
            ),
        decreases lines.len() - i,
    {
        assert(ls[i as int] == lines@[i as int]@);
        let line = crate::text::trim_chars(&crate::man::roff::strip_comment(&lines[i]));
        if line.len() > 0 {
            if crate::text::starts_with_exec(&line, ".so ") && target.is_none() {
                proof {
                    reveal_strlit(".so ");
                }
                let rest = crate::text::slice_chars(&line, 4, line.len());
                target = Some(crate::text::trim_chars(&rest));
            } else {
                // Any other content means the file stands on its own.
                return None;
            }
        }
        i = i + 1;
    }
    target
}

fn is_mdoc(source: &Vec<char>) -> (r: bool)
    ensures
        r == is_mdoc_spec(source@),
{
    let lines = lines_of(source);
    let ghost ls = crate::text::char_views(lines@);
    let mut i: usize = 0;
    while i < lines.len()
        invariant
            i <= lines.len(),
            ls == crate::text::char_views(lines@),
            ls == lines_from(source@, 0),
            forall|j: int| 0 <= j < i ==> !#[trigger] mdoc_line(ls[j]),
        decreases lines.len() - i,
    {
        assert(ls[i as int] == lines@[i as int]@);
        let line = &lines[i];
        if crate::text::starts_with_exec(line, ".Dd ") || crate::text::starts_with_exec(line, ".Dt ")
            || crate::man::roff::is(line, ".Dd") {
            assert(mdoc_line(ls[i as int]));
            return true;
        }
        i = i + 1;
    }
    false
}

/// What reading `source` as a man(7) page gives, where it is no `.so`
/// stub: the lines are read one by one from a fresh parser (`Parser::run`),
/// the last section closed, and the sections assembled into a topic. The
/// page is a topic exactly when it names an entry (a `.TH` header or a NAME
/// section) under a non-empty name; otherwise it is an mdoc(7) page when a
/// line opens with `.Dd` or `.Dt`, and no page at all when none does.
pub open spec fn page_read(source: Seq<char>, r: Result<Topic, ManError>) -> bool {
    exists|start: Parser, trace: Seq<Parser>, at: Seq<int>, end: Parser|
        #[trigger] reads(start, lines_from(source, 0), trace, at, end) && fresh(start) && {
            let doc = Document { header: end.header, sections: end.sections };
            &&& (names_an_entry(doc) && doc_name(doc).len() > 0) <==> r is Ok
            &&& r matches Ok(t) ==> assembled(doc, t)
            &&& r matches Err(e) ==> (e is Mdoc <==> is_mdoc_spec(source)) && !(e is Redirect)
        }
}

/// Parse man(7) source and convert it to a single [`Topic`].
///
/// One page is one topic, so this returns a `Topic` rather than a `Vec` the
/// way the Python and Typst readers do.
pub fn parse(source: &str) -> (r: Result<Topic, ManError>)
    ensures
        redirect_spec(source@) matches Some(target) <==> r matches Err(ManError::Redirect { .. }),
        r matches Err(ManError::Redirect { target }) ==> redirect_spec(source@) == Some(target@),
        r matches Err(ManError::Mdoc) ==> is_mdoc_spec(source@),
        r matches Err(ManError::NotAManPage) ==> !is_mdoc_spec(source@),
        r matches Ok(t) ==> (t.name@.len() > 0 && (t.lang matches Some(l) && (l@ == "c"@ || l@
            == "sh"@))),
        redirect_spec(source@) is None ==> page_read(source@, r),
{
    let text = chars_of(source);
    match redirect(&text) {
        Some(target) => {
            return Err(ManError::Redirect { target: string_of(target.as_slice()) });
        },
        None => {},
    }
    let start = Parser::new();
    let ghost s0 = start;
    let document = start.run(&text);
    let ghost ls = lines_from(text@, 0);
    let ghost (trace, at, end) = choose|trace: Seq<Parser>, at: Seq<int>, end: Parser|
        #[trigger] reads(s0, ls, trace, at, end) && document.header == end.header && document.sections
            == end.sections;
    let ghost doc = document;
    assert(doc == Document { header: end.header, sections: end.sections });
    let r = match crate::man::assemble::assemble(document) {
        Err(ManError::NotAManPage) => {
            if is_mdoc(&text) {
                Err(ManError::Mdoc)
            } else {
                Err(ManError::NotAManPage)
            }
        },
        other => other,
    };
    assert(reads(s0, lines_from(source@, 0), trace, at, end));
    r
}

} // verus!
