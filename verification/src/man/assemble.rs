//! Pass 2 of the man(7) reader: sections to a topic.
//!
//! A man page carries no machine-readable structure below the section
//! level: `.TP` is "hanging indent", not "parameter", and `.SH OPTIONS` is a
//! convention rather than a keyword. This pass reads the section *titles*
//! and routes each section to the field it belongs in, turning the terms of
//! an OPTIONS section into parameters and leaving anything unrecognised as a
//! section of its own, in source order.

use vstd::prelude::*;

use crate::ir::{Block, Example, Inline, Param, Section, Term, Topic};
use crate::man::fields::{
    all_code, all_code_spec, examples_are, link_blocks, linked_blocks, linked_block, params_are,
    rest_in, split_params, terms_in, lemma_params_concat,
};
use crate::man::names::{kind, kind_spec, split_name, split_name_spec, title_case, title_case_spec, Kind};
use crate::man::parser::{Document, Header, RawSection};
use crate::man::roff::{is_text, views};
use crate::man::usage::{wrap_usage, wrap_usage_spec};
use crate::text::{char_views, chars_of, has_non_ws, has_non_ws_exec, join, join_exec, owned, string_of, trim, trim_chars};

verus! {

/// Why a file could not be read as a man page.
#[derive(Debug)]
pub enum ManError {
    /// Neither a `.TH` header nor a `NAME` section: whatever this file is, it
    /// does not name a manual entry.
    NotAManPage,
    /// A `.so` stub: a file whose whole content redirects to another page.
    /// Common for aliases, and for every function of a library documented on
    /// one page.
    Redirect { target: String },
    /// BSD's semantic macro package, which is a different language: `.Dd`,
    /// `.Sh`, `.Nm` rather than `.TH`, `.SH`, `.B`.
    Mdoc,
}

// -- the page's name --------------------------------------------------------------

/// The first section titled NAME, from `i`.
pub open spec fn name_index(secs: Seq<RawSection>, i: int) -> Option<int>
    decreases secs.len() - i,
{
    if i < 0 || i >= secs.len() {
        None
    } else if kind_spec(secs[i].title@) == Kind::Name {
        Some(i)
    } else {
        name_index(secs, i + 1)
    }
}

/// The names and summary the NAME section gives, its lines read as one.
pub open spec fn name_split(secs: Seq<RawSection>) -> (Seq<Seq<char>>, Seq<char>) {
    match name_index(secs, 0) {
        Some(i) => split_name_spec(join(char_views(secs[i].lines@), " "@)),
        None => (seq![], seq![]),
    }
}

/// `char::to_ascii_lowercase`.
pub open spec fn ascii_lower(c: char) -> char {
    if 'A' <= c <= 'Z' {
        (((c as u32) + 32) as u8) as char
    } else {
        c
    }
}

/// `str::eq_ignore_ascii_case`.
pub open spec fn same_ignoring_case(a: Seq<char>, b: Seq<char>) -> bool {
    a.len() == b.len() && forall|i: int| 0 <= i < a.len() ==> #[trigger] ascii_lower(a[i]) == ascii_lower(b[i])
}

/// The first of `names` from `i` that is `h` up to ASCII case.
pub open spec fn first_same(names: Seq<Seq<char>>, h: Seq<char>, i: int) -> Option<Seq<char>>
    decreases names.len() - i,
{
    if i < 0 || i >= names.len() {
        None
    } else if same_ignoring_case(names[i], h) {
        Some(names[i])
    } else {
        first_same(names, h, i + 1)
    }
}

/// The page's name. `.TH LS 1` shouts by convention, but the entity is
/// `ls`, and that is what other pages cross-reference: the NAME section
/// spells it the way the software does, so it wins when the two agree apart
/// from case.
pub open spec fn page_name_of(names: Seq<Seq<char>>, header_name: Seq<char>) -> Seq<char> {
    match first_same(names, header_name, 0) {
        Some(n) => n,
        None => if header_name.len() == 0 {
            if names.len() > 0 {
                names[0]
            } else {
                seq![]
            }
        } else {
            header_name
        },
    }
}

/// `names` without `name`.
pub open spec fn others(names: Seq<Seq<char>>, name: Seq<char>) -> Seq<Seq<char>>
    decreases names.len(),
{
    if names.len() == 0 {
        seq![]
    } else if names.last() == name {
        others(names.drop_last(), name)
    } else {
        others(names.drop_last(), name).push(names.last())
    }
}

/// Section 2 and 3 pages document C functions; everything else documents
/// commands, and shell highlighting is the closer fit.
pub open spec fn lang_of(section: Seq<char>) -> Seq<char> {
    if section.len() > 0 && (section[0] == '2' || section[0] == '3') {
        "c"@
    } else {
        "sh"@
    }
}

pub open spec fn header_name(doc: Document) -> Seq<char> {
    match doc.header {
        Some(h) => h.name@,
        None => seq![],
    }
}

pub open spec fn header_section(doc: Document) -> Seq<char> {
    match doc.header {
        Some(h) => h.section@,
        None => seq![],
    }
}

/// Whether the document names a manual entry at all.
pub open spec fn names_an_entry(doc: Document) -> bool {
    doc.header is Some || name_index(doc.sections@, 0) is Some
}

pub open spec fn doc_name(doc: Document) -> Seq<char> {
    page_name_of(name_split(doc.sections@).0, header_name(doc))
}

// -- routing sections to fields ---------------------------------------------------

/// The blocks of the first `n` sections of kind `k`, in order.
pub open spec fn blocks_of(secs: Seq<RawSection>, k: Kind, n: int) -> Seq<Block>
    decreases n,
{
    if n <= 0 {
        seq![]
    } else {
        blocks_of(secs, k, n - 1) + if kind_spec(secs[n - 1].title@) == k {
            secs[n - 1].blocks@
        } else {
            seq![]
        }
    }
}

/// Each line laid out as a usage line.
pub open spec fn wrapped_all(lines: Seq<Seq<char>>) -> Seq<Seq<char>> {
    lines.map_values(|l: Seq<char>| wrap_usage_spec(l))
}

/// A SYNOPSIS section's usage lines, each laid out.
pub open spec fn synopsis_text(sec: RawSection) -> Seq<char> {
    join(wrapped_all(char_views(sec.lines@)), "\n"@)
}

/// The signature: the text of the last SYNOPSIS among the first `n`
/// sections that holds any.
pub open spec fn signature_of(secs: Seq<RawSection>, n: int) -> Option<Seq<char>>
    decreases n,
{
    if n <= 0 {
        None
    } else {
        let text = synopsis_text(secs[n - 1]);
        if kind_spec(secs[n - 1].title@) == Kind::Synopsis && has_non_ws(text) {
            Some(trim(text))
        } else {
            signature_of(secs, n - 1)
        }
    }
}

/// The terms of the OPTIONS sections among the first `n`.
pub open spec fn option_terms(secs: Seq<RawSection>, n: int) -> Seq<Term>
    decreases n,
{
    if n <= 0 {
        seq![]
    } else {
        option_terms(secs, n - 1) + if kind_spec(secs[n - 1].title@) == Kind::Options {
            terms_in(secs[n - 1].blocks@)
        } else {
            seq![]
        }
    }
}

/// The code of the EXAMPLES sections among the first `n` that hold nothing
/// but code.
pub open spec fn example_codes(secs: Seq<RawSection>, n: int) -> Seq<Seq<char>>
    decreases n,
{
    if n <= 0 {
        seq![]
    } else {
        example_codes(secs, n - 1) + if kind_spec(secs[n - 1].title@) == Kind::Examples
            && all_code_spec(secs[n - 1].blocks@) is Some {
            all_code_spec(secs[n - 1].blocks@)->0
        } else {
            seq![]
        }
    }
}

/// The sections of the first `n` that keep a heading of their own: their
/// title in title case, and their body.
pub open spec fn extra_sections(secs: Seq<RawSection>, n: int) -> Seq<(Seq<char>, Seq<Block>)>
    decreases n,
{
    if n <= 0 {
        seq![]
    } else {
        let sec = secs[n - 1];
        let title = title_case_spec(sec.title@);
        extra_sections(secs, n - 1) + match kind_spec(sec.title@) {
            // What an OPTIONS section holds besides its terms.
            Kind::Options => if rest_in(sec.blocks@).len() > 0 {
                seq![(title, rest_in(sec.blocks@))]
            } else {
                seq![]
            },
            // Examples interleaved with prose do not fit `Topic::examples`,
            // which holds code alone; keeping the section loses nothing.
            Kind::Examples => if all_code_spec(sec.blocks@) is None {
                seq![(title, sec.blocks@)]
            } else {
                seq![]
            },
            Kind::Other => seq![(title, sec.blocks@)],
            _ => seq![],
        }
    }
}

/// `out` are the sections `exp` describes: a plain-text title, and a body.
pub open spec fn sections_are(out: Seq<Section>, exp: Seq<(Seq<char>, Seq<Block>)>) -> bool {
    out.len() == exp.len() && forall|k: int|
        #![trigger out[k]]
        0 <= k < out.len() ==> out[k].title@.len() == 1 && is_text(out[k].title@[0], exp[k].0)
            && out[k].body@ == exp[k].1
}

/// The topic a page's sections make: its name and aliases from the NAME
/// section and `.TH`, and each section routed to its field.
pub open spec fn assembled(doc: Document, t: Topic) -> bool {
    let secs = doc.sections@;
    let n = secs.len() as int;
    let (names, summary) = name_split(secs);
    let name = doc_name(doc);
    &&& t.name@ == name
    &&& t.lang matches Some(l) && l@ == lang_of(header_section(doc))
    &&& views(t.aliases@) == others(names, name)
    &&& t.title@.len() == 1 && is_text(t.title@[0], if summary.len() == 0 { name } else { summary })
    &&& t.keywords@.len() == 0
    &&& t.details@.len() == 0
    &&& t.raises@.len() == 0
    &&& match signature_of(secs, n) {
        Some(s) => t.signature matches Some(v) && v@ == s,
        None => t.signature is None,
    }
    &&& t.description@ == blocks_of(secs, Kind::Description, n)
    &&& t.value@ == blocks_of(secs, Kind::Value, n)
    &&& t.note@ == blocks_of(secs, Kind::Note, n)
    &&& t.author@ == blocks_of(secs, Kind::Author, n)
    &&& t.references@ == blocks_of(secs, Kind::References, n)
    &&& linked_blocks(t.seealso@, blocks_of(secs, Kind::SeeAlso, n))
    &&& params_are(t.params@, option_terms(secs, n))
    &&& examples_are(t.examples@, example_codes(secs, n))
    &&& sections_are(t.sections@, extra_sections(secs, n))
}

// -- proofs about the routing ------------------------------------------------------

proof fn lemma_blocks_step(secs: Seq<RawSection>, k: Kind, i: int)
    requires
        0 <= i < secs.len(),
    ensures
        blocks_of(secs, k, i + 1) == if kind_spec(secs[i].title@) == k {
            blocks_of(secs, k, i) + secs[i].blocks@
        } else {
            blocks_of(secs, k, i)
        },
{
    assert(blocks_of(secs, k, i) + Seq::<Block>::empty() =~= blocks_of(secs, k, i));
}

proof fn lemma_steps(secs: Seq<RawSection>, i: int)
    requires
        0 <= i < secs.len(),
    ensures
        option_terms(secs, i + 1) == if kind_spec(secs[i].title@) == Kind::Options {
            option_terms(secs, i) + terms_in(secs[i].blocks@)
        } else {
            option_terms(secs, i)
        },
        example_codes(secs, i + 1) == if kind_spec(secs[i].title@) == Kind::Examples
            && all_code_spec(secs[i].blocks@) is Some {
            example_codes(secs, i) + all_code_spec(secs[i].blocks@)->0
        } else {
            example_codes(secs, i)
        },
        kind_spec(secs[i].title@) != Kind::Options && kind_spec(secs[i].title@) != Kind::Examples
            && kind_spec(secs[i].title@) != Kind::Other ==> extra_sections(secs, i + 1)
            == extra_sections(secs, i),
        kind_spec(secs[i].title@) != Kind::Synopsis ==> signature_of(secs, i + 1) == signature_of(
            secs,
            i,
        ),
{
    assert(option_terms(secs, i) + Seq::<Term>::empty() =~= option_terms(secs, i));
    assert(example_codes(secs, i) + Seq::<Seq<char>>::empty() =~= example_codes(secs, i));
    assert(extra_sections(secs, i) + Seq::<(Seq<char>, Seq<Block>)>::empty() =~= extra_sections(
        secs,
        i,
    ));
}

pub proof fn lemma_linked_concat(a: Seq<Block>, sa: Seq<Block>, b: Seq<Block>, sb: Seq<Block>)
    requires
        linked_blocks(a, sa),
        linked_blocks(b, sb),
    ensures
        linked_blocks(a + b, sa + sb),
    decreases sb.len(),
{
    if sb.len() == 0 {
        assert(b.len() == 0);
        assert(a + b =~= a);
        assert(sa + sb =~= sa);
    } else {
        let n = sb.len() - 1;
        lemma_linked_concat(a, sa, b.subrange(0, n), sb.subrange(0, n));
        let x = a + b;
        let sx = sa + sb;
        assert(x.subrange(0, x.len() - 1) =~= a + b.subrange(0, n));
        assert(sx.subrange(0, sx.len() - 1) =~= sa + sb.subrange(0, n));
        assert(x[x.len() - 1] == b[n]);
        assert(sx[sx.len() - 1] == sb[n]);
    }
}

proof fn lemma_examples_concat(a: Seq<Example>, ca: Seq<Seq<char>>, b: Seq<Example>, cb: Seq<Seq<char>>)
    requires
        examples_are(a, ca),
        examples_are(b, cb),
    ensures
        examples_are(a + b, ca + cb),
{
    assert forall|k: int| #![trigger (a + b)[k]] 0 <= k < (a + b).len() implies (a + b)[k].code@ == (ca + cb)[k]
        && (a + b)[k].run by {
        if k < a.len() {
            assert((a + b)[k] == a[k]);
            assert(a[k].code@ == ca[k] && a[k].run);
            assert((ca + cb)[k] == ca[k]);
        } else {
            assert((a + b)[k] == b[k - a.len()]);
            assert(b[k - a.len()].code@ == cb[k - a.len()] && b[k - a.len()].run);
            assert((ca + cb)[k] == cb[k - a.len()]);
        }
    }
}

proof fn lemma_sections_push(out: Seq<Section>, exp: Seq<(Seq<char>, Seq<Block>)>, s: Section, e: (Seq<char>, Seq<Block>))
    requires
        sections_are(out, exp),
        s.title@.len() == 1 && is_text(s.title@[0], e.0) && s.body@ == e.1,
    ensures
        sections_are(out.push(s), exp.push(e)),
{
    assert forall|k: int| #![trigger out.push(s)[k]] 0 <= k < out.push(s).len() implies out.push(s)[k].title@.len() == 1
        && is_text(out.push(s)[k].title@[0], exp.push(e)[k].0) && out.push(s)[k].body@ == exp.push(e)[k].1 by {
        if k < out.len() {
            assert(out.push(s)[k] == out[k]);
        }
    }
}

// -- executable -------------------------------------------------------------------

fn find_name_section(secs: &Vec<RawSection>) -> (r: Option<usize>)
    ensures
        match r {
            Some(i) => name_index(secs@, 0) == Some(i as int) && i < secs.len(),
            None => name_index(secs@, 0) is None,
        },
{
    let mut i: usize = 0;
    while i < secs.len()
        invariant
            i <= secs.len(),
            name_index(secs@, 0) == name_index(secs@, i as int),
        decreases secs.len() - i,
    {
        if kind(&secs[i].title) == Kind::Name {
            return Some(i);
        }
        i = i + 1;
    }
    None
}

fn same_ignoring_case_exec(a: &Vec<char>, b: &Vec<char>) -> (r: bool)
    ensures
        r == same_ignoring_case(a@, b@),
{
    if a.len() != b.len() {
        return false;
    }
    let mut i: usize = 0;
    while i < a.len()
        invariant
            i <= a.len() == b.len(),
            forall|j: int| 0 <= j < i ==> #[trigger] ascii_lower(a@[j]) == ascii_lower(b@[j]),
        decreases a.len() - i,
    {
        let x = a[i];
        let y = b[i];
        let lx = if 'A' <= x && x <= 'Z' {
            (((x as u32) + 32) as u8) as char
        } else {
            x
        };
        let ly = if 'A' <= y && y <= 'Z' {
            (((y as u32) + 32) as u8) as char
        } else {
            y
        };
        if lx != ly {
            assert(ascii_lower(a@[i as int]) != ascii_lower(b@[i as int]));
            return false;
        }
        i = i + 1;
    }
    true
}

fn page_name_exec(names: &Vec<Vec<char>>, header_name: &Vec<char>) -> (r: Vec<char>)
    ensures
        r@ == page_name_of(char_views(names@), header_name@),
{
    let ghost ns = char_views(names@);
    let mut i: usize = 0;
    while i < names.len()
        invariant
            i <= names.len(),
            ns == char_views(names@),
            first_same(ns, header_name@, 0) == first_same(ns, header_name@, i as int),
        decreases names.len() - i,
    {
        if same_ignoring_case_exec(&names[i], header_name) {
            assert(ns[i as int] == names@[i as int]@);
            return crate::text::slice_chars(&names[i], 0, names[i].len());
        }
        i = i + 1;
    }
    if header_name.len() == 0 {
        if names.len() > 0 {
            crate::text::slice_chars(&names[0], 0, names[0].len())
        } else {
            Vec::new()
        }
    } else {
        crate::text::slice_chars(header_name, 0, header_name.len())
    }
}

fn others_exec(names: &Vec<Vec<char>>, name: &Vec<char>) -> (r: Vec<String>)
    ensures
        views(r@) == others(char_views(names@), name@),
{
    let ghost ns = char_views(names@);
    let mut out: Vec<String> = Vec::new();
    let mut i: usize = 0;
    assert(ns.subrange(0, 0) =~= Seq::<Seq<char>>::empty());
    while i < names.len()
        invariant
            i <= names.len(),
            ns == char_views(names@),
            views(out@) == others(ns.subrange(0, i as int), name@),
        decreases names.len() - i,
    {
        let ghost pre = ns.subrange(0, i as int);
        let ghost next = ns.subrange(0, i + 1);
        assert(next.drop_last() =~= pre);
        assert(next.last() == names@[i as int]@);
        if !crate::text::seq_eq(&names[i], name) {
            let ghost before = out@;
            out.push(string_of(names[i].as_slice()));
            assert(views(out@) =~= views(before).push(names@[i as int]@));
        }
        i = i + 1;
    }
    assert(ns.subrange(0, i as int) =~= ns);
    out
}

fn synopsis_exec(sec: &RawSection) -> (r: Vec<char>)
    ensures
        r@ == synopsis_text(*sec),
{
    let ghost ls = char_views(sec.lines@);
    let mut wrapped: Vec<Vec<char>> = Vec::new();
    let mut i: usize = 0;
    while i < sec.lines.len()
        invariant
            i <= sec.lines.len(),
            ls == char_views(sec.lines@),
            char_views(wrapped@) == wrapped_all(ls.subrange(0, i as int)),
        decreases sec.lines.len() - i,
    {
        let ghost before = wrapped@;
        wrapped.push(wrap_usage(&sec.lines[i]));
        assert(char_views(wrapped@) =~= char_views(before).push(wrap_usage_spec(ls[i as int])));
        assert(wrapped_all(ls.subrange(0, i + 1)) =~= wrapped_all(ls.subrange(0, i as int)).push(
            wrap_usage_spec(ls[i as int]),
        ));
        i = i + 1;
    }
    assert(ls.subrange(0, i as int) =~= ls);
    join_exec(&wrapped, "\n")
}

fn heading(title: &Vec<char>) -> (r: Vec<Inline>)
    ensures
        r@.len() == 1,
        is_text(r@[0], title_case_spec(title@)),
{
    let t = title_case(title);
    let mut v: Vec<Inline> = Vec::new();
    v.push(Inline::Text(string_of(t.as_slice())));
    v
}

/// Route a page's sections to the fields of one topic.
pub(crate) fn assemble(document: Document) -> (r: Result<Topic, ManError>)
    ensures
        match r {
            Err(e) => e is NotAManPage && (!names_an_entry(document) || doc_name(document).len() == 0),
            Ok(t) => names_an_entry(document) && doc_name(document).len() > 0 && assembled(document, t),
        },
{
    let ghost doc = document;
    let Document { header, sections } = document;
    let ghost secs = sections@;
    let name_at = find_name_section(&sections);
    if header.is_none() && name_at.is_none() {
        return Err(ManError::NotAManPage);
    }
    let (names, summary) = match name_at {
        Some(i) => split_name(&join_exec(&sections[i].lines, " ")),
        None => (Vec::new(), Vec::new()),
    };
    let (hname, hsection) = match header {
        Some(h) => (h.name, h.section),
        None => (Vec::new(), Vec::new()),
    };
    assert(hname@ == header_name(doc));
    assert(hsection@ == header_section(doc));
    let name = page_name_exec(&names, &hname);
    let name_string = string_of(name.as_slice());
    let mut topic = Topic::new(name_string.as_str());
    topic.lang = Some(
        if hsection.len() > 0 && (hsection[0] == '2' || hsection[0] == '3') {
            owned("c")
        } else {
            owned("sh")
        },
    );
    topic.aliases = others_exec(&names, &name);
    let title_text = if summary.len() == 0 {
        string_of(name.as_slice())
    } else {
        string_of(summary.as_slice())
    };
    let mut title: Vec<Inline> = Vec::new();
    title.push(Inline::Text(title_text));
    topic.title = title;

    let mut rest = sections;
    let n = rest.len();
    let mut i: usize = 0;
    while rest.len() > 0
        invariant
            i + rest@.len() == secs.len(),
            secs.len() == n,
            secs == doc.sections@,
            rest@ == secs.subrange(i as int, secs.len() as int),
            topic.name@ == doc_name(doc),
            topic.lang matches Some(l) && l@ == lang_of(header_section(doc)),
            views(topic.aliases@) == others(name_split(secs).0, doc_name(doc)),
            topic.title@.len() == 1 && is_text(
                topic.title@[0],
                if name_split(secs).1.len() == 0 {
                    doc_name(doc)
                } else {
                    name_split(secs).1
                },
            ),
            topic.keywords@.len() == 0,
            topic.details@.len() == 0,
            topic.raises@.len() == 0,
            match signature_of(secs, i as int) {
                Some(s) => topic.signature matches Some(v) && v@ == s,
                None => topic.signature is None,
            },
            topic.description@ == blocks_of(secs, Kind::Description, i as int),
            topic.value@ == blocks_of(secs, Kind::Value, i as int),
            topic.note@ == blocks_of(secs, Kind::Note, i as int),
            topic.author@ == blocks_of(secs, Kind::Author, i as int),
            topic.references@ == blocks_of(secs, Kind::References, i as int),
            linked_blocks(topic.seealso@, blocks_of(secs, Kind::SeeAlso, i as int)),
            params_are(topic.params@, option_terms(secs, i as int)),
            examples_are(topic.examples@, example_codes(secs, i as int)),
            sections_are(topic.sections@, extra_sections(secs, i as int)),
        decreases rest.len(),
    {
        let mut section = rest.remove(0);
        assert(section == secs[i as int]);
        proof {
            lemma_blocks_step(secs, Kind::Description, i as int);
            lemma_blocks_step(secs, Kind::Value, i as int);
            lemma_blocks_step(secs, Kind::Note, i as int);
            lemma_blocks_step(secs, Kind::Author, i as int);
            lemma_blocks_step(secs, Kind::References, i as int);
            lemma_blocks_step(secs, Kind::SeeAlso, i as int);
            lemma_steps(secs, i as int);
        }
        let k = kind(&section.title);
        let ghost sec = section;
        if k == Kind::Synopsis {
            let signature = synopsis_exec(&section);
            if has_non_ws_exec(&signature) {
                topic.signature = Some(string_of(trim_chars(&signature).as_slice()));
            }
        } else if k == Kind::Description {
            topic.description.append(&mut section.blocks);
        } else if k == Kind::Options {
            let (mut params, rest_blocks) = split_params(section.blocks);
            let ghost p0 = topic.params@;
            let ghost added = params@;
            topic.params.append(&mut params);
            proof {
                lemma_params_concat(p0, option_terms(secs, i as int), added, terms_in(sec.blocks@));
            }
            if rest_blocks.len() > 0 {
                let s = Section { title: heading(&section.title), body: rest_blocks };
                proof {
                    lemma_sections_push(
                        topic.sections@,
                        extra_sections(secs, i as int),
                        s,
                        (title_case_spec(sec.title@), rest_in(sec.blocks@)),
                    );
                    assert(extra_sections(secs, i + 1) =~= extra_sections(secs, i as int).push(
                        (title_case_spec(sec.title@), rest_in(sec.blocks@)),
                    ));
                }
                topic.sections.push(s);
            } else {
                assert(extra_sections(secs, i + 1) =~= extra_sections(secs, i as int));
            }
        } else if k == Kind::Value {
            topic.value.append(&mut section.blocks);
        } else if k == Kind::Examples {
            match all_code(&section.blocks) {
                Some(mut examples) => {
                    let ghost e0 = topic.examples@;
                    let ghost added = examples@;
                    topic.examples.append(&mut examples);
                    proof {
                        lemma_examples_concat(
                            e0,
                            example_codes(secs, i as int),
                            added,
                            all_code_spec(sec.blocks@)->0,
                        );
                        assert(extra_sections(secs, i + 1) =~= extra_sections(secs, i as int));
                    }
                },
                None => {
                    let s = Section { title: heading(&section.title), body: section.blocks };
                    proof {
                        lemma_sections_push(
                            topic.sections@,
                            extra_sections(secs, i as int),
                            s,
                            (title_case_spec(sec.title@), sec.blocks@),
                        );
                        assert(extra_sections(secs, i + 1) =~= extra_sections(secs, i as int).push(
                            (title_case_spec(sec.title@), sec.blocks@),
                        ));
                    }
                    topic.sections.push(s);
                },
            }
        } else if k == Kind::SeeAlso {
            let mut linked = link_blocks(section.blocks);
            let ghost s0 = topic.seealso@;
            let ghost added = linked@;
            topic.seealso.append(&mut linked);
            proof {
                lemma_linked_concat(s0, blocks_of(secs, Kind::SeeAlso, i as int), added, sec.blocks@);
            }
        } else if k == Kind::Note {
            topic.note.append(&mut section.blocks);
        } else if k == Kind::Author {
            topic.author.append(&mut section.blocks);
        } else if k == Kind::References {
            topic.references.append(&mut section.blocks);
        } else if k == Kind::Other {
            let s = Section { title: heading(&section.title), body: section.blocks };
            proof {
                lemma_sections_push(
                    topic.sections@,
                    extra_sections(secs, i as int),
                    s,
                    (title_case_spec(sec.title@), sec.blocks@),
                );
                assert(extra_sections(secs, i + 1) =~= extra_sections(secs, i as int).push(
                    (title_case_spec(sec.title@), sec.blocks@),
                ));
            }
            topic.sections.push(s);
        }
        i = i + 1;
        assert(rest@ =~= secs.subrange(i as int, secs.len() as int));
    }
    if name.len() == 0 {
        return Err(ManError::NotAManPage);
    }
    Ok(topic)
}

} // verus!
