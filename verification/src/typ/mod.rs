//! The Typst reader: `///` doc comments in `.typ` source to [`Topic`]s.
//!
//! The dialect is the one the `tidy` package established, with three
//! deliberate divergences: type annotations are line-anchored, level-1
//! headings route to the matching manual section, and only documented
//! definitions become topics.
//!
//! Definition and parameter structure comes from the `typst-syntax` CST, not
//! from regexes: the CST is lossless, so `///` runs appear as line comments
//! that are siblings of the `let` binding or parameter they precede, and a
//! `let` inside a string literal is just a string. One wrinkle drives the
//! walker's shape: a run before the *first* statement of a code block sits in
//! the code block node, outside the inner code node that holds the binding.
//! The pending run therefore flows *into* child containers instead of being
//! dropped at their boundary; any other non-trivia node ends it.
//!
//! The doc body is already Typst markup and must reach the output verbatim,
//! so prose becomes [`Block::Raw`] and titles [`Inline::Raw`] — never
//! `Paragraph`/`Text`, which would escape markup the author wrote
//! deliberately.

pub mod package;
pub mod syntax;

use vstd::prelude::*;

use crate::ir::block::{blocks_v, lemma_blocks_v_concat, lemma_blocks_v_index, BlockV};
use crate::ir::inline::{inlines_v, lemma_inlines_v_index, InlineV};
use crate::ir::topic::{sections_v, SectionV};
use crate::ir::{Block, Inline, Param, Section, Topic};
use crate::man::names::lowercase;
use crate::man::names::{nonempty, nonempty_exec, trimmed_pieces, trimmed_pieces_exec};
use crate::text::{
    char_views, chars_of, has_non_ws, has_non_ws_exec, join, join_exec, owned, push_chars, push_str,
    slice_chars, starts_with, starts_with_exec, string_of, trim, trim_chars, trim_start, trim_start_chars,
};
pub use syntax::Cst;

verus! {

// -- doc lines --------------------------------------------------------------------

/// The content of a `///` line: the marker and at most one following space
/// stripped. `None` for an ordinary comment, which ends a doc run.
pub open spec fn doc_line_spec(text: Seq<char>) -> Option<Seq<char>> {
    if starts_with(text, "///"@) {
        let rest = text.subrange(3, text.len() as int);
        Some(
            if rest.len() > 0 && rest[0] == ' ' {
                rest.drop_first()
            } else {
                rest
            },
        )
    } else {
        None
    }
}

pub(crate) fn doc_line(text: &Vec<char>) -> (r: Option<Vec<char>>)
    ensures
        match r {
            Some(l) => doc_line_spec(text@) == Some(l@),
            None => doc_line_spec(text@) is None,
        },
{
    proof {
        reveal_strlit("///");
    }
    if !starts_with_exec(text, "///") {
        return None;
    }
    assert("///"@.len() == 3);
    let rest = slice_chars(text, 3, text.len());
    if rest.len() > 0 && rest[0] == ' ' {
        let tail = slice_chars(&rest, 1, rest.len());
        assert(tail@ =~= rest@.drop_first());
        Some(tail)
    } else {
        Some(rest)
    }
}

// -- type annotations -------------------------------------------------------------

/// The index of the last line of `lines[..n]` that holds anything but
/// whitespace.
pub open spec fn last_nonblank(lines: Seq<Seq<char>>, n: int) -> Option<int>
    decreases n,
{
    if n <= 0 {
        None
    } else if has_non_ws(lines[n - 1]) {
        Some(n - 1)
    } else {
        last_nonblank(lines, n - 1)
    }
}

/// The trailing type annotation of a doc run, and how many lines of body
/// precede it.
///
/// Divergence from tidy: only the *final non-empty line* can be the
/// annotation. tidy splits on the last `->` occurring anywhere in the block,
/// which silently truncates prose like "maps keys -> values".
pub open spec fn split_types_spec(lines: Seq<Seq<char>>) -> (Seq<Seq<char>>, int) {
    match last_nonblank(lines, lines.len() as int) {
        Some(i) => {
            let t = trim(lines[i]);
            if starts_with(t, "->"@) {
                (nonempty(trimmed_pieces(t.subrange(2, t.len() as int), '|', 0)), i)
            } else {
                (seq![], lines.len() as int)
            }
        },
        None => (seq![], lines.len() as int),
    }
}

proof fn lemma_last_nonblank(lines: Seq<Seq<char>>, n: int)
    requires
        0 <= n <= lines.len(),
    ensures
        last_nonblank(lines, n) matches Some(i) ==> 0 <= i < n,
    decreases n,
{
    if n > 0 && !has_non_ws(lines[n - 1]) {
        lemma_last_nonblank(lines, n - 1);
    }
}

pub(crate) fn split_types(lines: &Vec<Vec<char>>) -> (r: (Vec<Vec<char>>, usize))
    ensures
        (char_views(r.0@), r.1 as int) == split_types_spec(char_views(lines@)),
{
    let ghost ls = char_views(lines@);
    let mut n = lines.len();
    while n > 0 && !has_non_ws_exec(&lines[n - 1])
        invariant
            n <= lines.len(),
            ls == char_views(lines@),
            last_nonblank(ls, lines.len() as int) == last_nonblank(ls, n as int),
        decreases n,
    {
        assert(ls[n - 1] == lines@[n - 1]@);
        n = n - 1;
    }
    if n == 0 {
        return (Vec::new(), lines.len());
    }
    let index = n - 1;
    assert(ls[index as int] == lines@[index as int]@);
    let t = trim_chars(&lines[index]);
    proof {
        reveal_strlit("->");
    }
    if starts_with_exec(&t, "->") {
        assert("->"@.len() == 2);
        let annotation = slice_chars(&t, 2, t.len());
        let types = nonempty_exec(trimmed_pieces_exec(&annotation, '|'));
        return (types, index);
    }
    (Vec::new(), lines.len())
}

// -- bodies -----------------------------------------------------------------------

/// The length of the backtick run opening a line.
pub open spec fn backticks(line: Seq<char>, i: int) -> int
    decreases line.len() - i,
{
    if 0 <= i < line.len() && line[i] == '`' {
        backticks(line, i + 1)
    } else {
        i
    }
}

pub(crate) fn leading_backticks(line: &Vec<char>) -> (r: usize)
    ensures
        r == backticks(line@, 0),
{
    let mut i: usize = 0;
    while i < line.len() && line[i] == '`'
        invariant
            i <= line.len(),
            backticks(line@, 0) == backticks(line@, i as int),
        decreases line.len() - i,
    {
        i = i + 1;
    }
    i
}

/// The first line of `lines[..n]` from `i` that holds anything but
/// whitespace.
pub open spec fn first_nonblank(lines: Seq<Seq<char>>, i: int, n: int) -> Option<int>
    decreases n - i,
{
    if i < 0 || i >= n {
        None
    } else if has_non_ws(lines[i]) {
        Some(i)
    } else {
        first_nonblank(lines, i + 1, n)
    }
}

/// A region as one verbatim block: outer blank lines trimmed, inner ones
/// kept; nothing for a blank region.
pub open spec fn raw_text(lines: Seq<Seq<char>>) -> Option<Seq<char>> {
    match first_nonblank(lines, 0, lines.len() as int) {
        Some(f) => match last_nonblank(lines, lines.len() as int) {
            Some(l) => Some(join(lines.subrange(f, l + 1), "\n"@)),
            None => None,
        },
        None => None,
    }
}

/// `blocks` is the one verbatim block `text` gives, or nothing.
pub open spec fn raw_blocks_are(blocks: Seq<Block>, text: Option<Seq<char>>) -> bool {
    match text {
        Some(t) => blocks.len() == 1 && (blocks[0] matches Block::Raw(v) && v@ == t),
        None => blocks.len() == 0,
    }
}

proof fn lemma_first_last(lines: Seq<Seq<char>>, i: int, n: int)
    requires
        0 <= i <= n <= lines.len(),
    ensures
        first_nonblank(lines, i, n) matches Some(f) ==> (i <= f < n && has_non_ws(lines[f]) && (
        last_nonblank(lines, n) matches Some(l) && f <= l < n)),
    decreases n - i,
{
    lemma_last_nonblank(lines, n);
    if i < n && !has_non_ws(lines[i]) {
        lemma_first_last(lines, i + 1, n);
    }
    if i < n && has_non_ws(lines[i]) {
        lemma_last_at_least(lines, i, n);
    }
}

proof fn lemma_last_at_least(lines: Seq<Seq<char>>, f: int, n: int)
    requires
        0 <= f < n <= lines.len(),
        has_non_ws(lines[f]),
    ensures
        (last_nonblank(lines, n) matches Some(l) && f <= l < n),
    decreases n,
{
    if n - 1 > f && !has_non_ws(lines[n - 1]) {
        lemma_last_at_least(lines, f, n - 1);
    }
}

/// `lines[from..to]` as a single verbatim block, outer blank lines trimmed.
pub(crate) fn raw_block(lines: &Vec<Vec<char>>, from: usize, to: usize) -> (r: Vec<Block>)
    requires
        from <= to <= lines.len(),
    ensures
        raw_blocks_are(r@, raw_text(char_views(lines@).subrange(from as int, to as int))),
{
    let ghost ls = char_views(lines@).subrange(from as int, to as int);
    let mut f = from;
    while f < to && !has_non_ws_exec(&lines[f])
        invariant
            from <= f <= to <= lines.len(),
            ls == char_views(lines@).subrange(from as int, to as int),
            first_nonblank(ls, 0, ls.len() as int) == first_nonblank(ls, f - from, ls.len() as int),
        decreases to - f,
    {
        assert(ls[f - from] == lines@[f as int]@);
        f = f + 1;
    }
    if f == to {
        return Vec::new();
    }
    assert(ls[f - from] == lines@[f as int]@);
    let mut l = to;
    while l > f && !has_non_ws_exec(&lines[l - 1])
        invariant
            from <= f < l <= to <= lines.len(),
            has_non_ws(lines@[f as int]@),
            ls == char_views(lines@).subrange(from as int, to as int),
            last_nonblank(ls, ls.len() as int) == last_nonblank(ls, l - from),
        decreases l,
    {
        assert(ls[l - 1 - from] == lines@[l - 1]@);
        l = l - 1;
    }
    assert(ls[l - 1 - from] == lines@[l - 1]@);
    let mut region: Vec<Vec<char>> = Vec::new();
    let mut k = f;
    while k < l
        invariant
            f <= k <= l <= to <= lines.len(),
            char_views(region@) == char_views(lines@).subrange(f as int, k as int),
        decreases l - k,
    {
        let ghost before = region@;
        let line = slice_chars(&lines[k], 0, lines[k].len());
        assert(line@ =~= lines@[k as int]@);
        region.push(line);
        assert(char_views(region@) =~= char_views(before).push(lines@[k as int]@));
        assert(char_views(region@) =~= char_views(lines@).subrange(f as int, k + 1));
        k = k + 1;
    }
    assert(ls.subrange(f - from, l - from) =~= char_views(lines@).subrange(f as int, l as int));
    let text = join_exec(&region, "\n");
    let mut out: Vec<Block> = Vec::new();
    out.push(Block::Raw(string_of(text.as_slice())));
    out
}

// -- bodies: titles and sections -------------------------------------------------------

fn kind_is(node: &Cst, name: &str) -> (r: bool)
    ensures
        r == (node.kind@ == name@),
{
    crate::text::str_eq(node.kind.as_str(), name)
}

/// The blocks of one verbatim region, or none for a blank one.
pub open spec fn raw_v(text: Option<Seq<char>>) -> Seq<BlockV> {
    match text {
        Some(t) => seq![BlockV::Raw(t)],
        None => seq![],
    }
}

proof fn lemma_raw_v(blocks: Seq<Block>, text: Option<Seq<char>>)
    requires
        raw_blocks_are(blocks, text),
    ensures
        blocks_v(blocks) == raw_v(text),
{
    lemma_blocks_v_index(blocks);
    assert(blocks_v(blocks) =~= raw_v(text));
}

fn raw_inline(text: &Vec<char>) -> (r: Vec<Inline>)
    ensures
        inlines_v(r@) == seq![InlineV::Raw(text@)],
{
    let mut v: Vec<Inline> = Vec::new();
    v.push(Inline::Raw(string_of(text.as_slice())));
    proof {
        lemma_inlines_v_index(v@);
        assert(inlines_v(v@) =~= seq![InlineV::Raw(text@)]);
    }
    v
}

/// The characters of an optional run of characters.
pub open spec fn opt_view(o: Option<Vec<char>>) -> Option<Seq<char>> {
    match o {
        Some(v) => Some(v@),
        None => None,
    }
}

/// A region of a doc body: the heading it follows, if any, and its lines.
pub type Region = (Option<Seq<char>>, Seq<Seq<char>>);

/// Where the first blank line of `lines` stands from `i`, or its end.
pub open spec fn first_blank(lines: Seq<Seq<char>>, i: int) -> int
    decreases lines.len() - i,
{
    if i < 0 || i >= lines.len() {
        lines.len() as int
    } else if has_non_ws(lines[i]) {
        first_blank(lines, i + 1)
    } else {
        i
    }
}

/// The title a leading region gives: its first paragraph joined to one line.
pub open spec fn lead_title(lines: Seq<Seq<char>>) -> Seq<char> {
    trim(join(lines.subrange(0, first_blank(lines, 0)), " "@))
}

/// The description a leading region gives: what follows its first paragraph.
pub open spec fn lead_description(lines: Seq<Seq<char>>) -> Seq<BlockV> {
    raw_v(raw_text(lines.subrange(first_blank(lines, 0), lines.len() as int)))
}

/// Where a headed region goes, by its heading in lower case.
pub enum TypRoute {
    Value,
    Details,
    Note,
    SeeAlso,
    References,
    Author,
    Custom,
}

/// The route of a region headed `title`.
pub open spec fn typ_route(title: Seq<char>) -> TypRoute {
    let l = lowercase(title);
    if l == "value"@ || l == "returns"@ || l == "return"@ {
        TypRoute::Value
    } else if l == "details"@ {
        TypRoute::Details
    } else if l == "note"@ {
        TypRoute::Note
    } else if l == "see also"@ || l == "seealso"@ {
        TypRoute::SeeAlso
    } else if l == "references"@ {
        TypRoute::References
    } else if l == "author"@ {
        TypRoute::Author
    } else {
        TypRoute::Custom
    }
}

/// The blocks the headed regions routed to `route` give, in order.
pub open spec fn routed(regions: Seq<Region>, route: TypRoute) -> Seq<BlockV>
    decreases regions.len(),
{
    if regions.len() == 0 {
        seq![]
    } else {
        routed(regions.drop_last(), route) + match regions.last().0 {
            Some(t) => if typ_route(t) == route {
                raw_v(raw_text(regions.last().1))
            } else {
                seq![]
            },
            None => seq![],
        }
    }
}

/// The description the leading regions give, in order.
pub open spec fn described(regions: Seq<Region>) -> Seq<BlockV>
    decreases regions.len(),
{
    if regions.len() == 0 {
        seq![]
    } else {
        described(regions.drop_last()) + match regions.last().0 {
            Some(_) => seq![],
            None => lead_description(regions.last().1),
        }
    }
}

/// The custom sections the headed regions give, in order: the heading as
/// raw markup, the body verbatim.
pub open spec fn custom_sections(regions: Seq<Region>) -> Seq<SectionV>
    decreases regions.len(),
{
    if regions.len() == 0 {
        seq![]
    } else {
        match regions.last().0 {
            Some(t) => if typ_route(t) == TypRoute::Custom {
                custom_sections(regions.drop_last()).push(
                    (seq![InlineV::Raw(t)], raw_v(raw_text(regions.last().1))),
                )
            } else {
                custom_sections(regions.drop_last())
            },
            None => custom_sections(regions.drop_last()),
        }
    }
}

/// The title the leading regions give: the last one with a non-empty first
/// paragraph's, or none.
pub open spec fn titled(regions: Seq<Region>) -> Option<Seq<char>>
    decreases regions.len(),
{
    if regions.len() == 0 {
        None
    } else {
        match regions.last().0 {
            None => if lead_title(regions.last().1).len() > 0 {
                Some(lead_title(regions.last().1))
            } else {
                titled(regions.drop_last())
            },
            Some(_) => titled(regions.drop_last()),
        }
    }
}

/// Whether `after` is `before` with the regions `regions` routed into it.
pub open spec fn regions_routed(before: Topic, after: Topic, regions: Seq<Region>) -> bool {
    &&& inlines_v(after.title@) == match titled(regions) {
        Some(t) => seq![InlineV::Raw(t)],
        None => inlines_v(before.title@),
    }
    &&& blocks_v(after.description@) == blocks_v(before.description@) + described(regions)
    &&& blocks_v(after.value@) == blocks_v(before.value@) + routed(regions, TypRoute::Value)
    &&& blocks_v(after.details@) == blocks_v(before.details@) + routed(regions, TypRoute::Details)
    &&& blocks_v(after.note@) == blocks_v(before.note@) + routed(regions, TypRoute::Note)
    &&& blocks_v(after.seealso@) == blocks_v(before.seealso@) + routed(regions, TypRoute::SeeAlso)
    &&& blocks_v(after.references@) == blocks_v(before.references@) + routed(regions, TypRoute::References)
    &&& blocks_v(after.author@) == blocks_v(before.author@) + routed(regions, TypRoute::Author)
    &&& sections_v(after.sections@) == sections_v(before.sections@) + custom_sections(regions)
    &&& after.name == before.name
    &&& after.signature == before.signature
    &&& after.lang == before.lang
    &&& after.params == before.params
    &&& after.aliases == before.aliases
    &&& after.keywords == before.keywords
    &&& after.raises == before.raises
    &&& after.examples == before.examples
}

/// A region headed Author, in any case, fills the topic's author and
/// nothing else: reading one more such region after the others adds its
/// text to the author and leaves the value, details, note, see-also,
/// references and custom sections as they were.
pub proof fn law_author_regions_fill_the_author(
    before: Topic,
    a: Topic,
    b: Topic,
    rs: Seq<Region>,
    title: Seq<char>,
    body: Seq<Seq<char>>,
)
    requires
        lowercase(title) == "author"@,
        regions_routed(before, a, rs),
        regions_routed(before, b, rs.push((Some(title), body))),
    ensures
        blocks_v(b.author@) == blocks_v(a.author@) + raw_v(raw_text(body)),
        blocks_v(b.note@) == blocks_v(a.note@),
        blocks_v(b.value@) == blocks_v(a.value@),
        blocks_v(b.details@) == blocks_v(a.details@),
        blocks_v(b.seealso@) == blocks_v(a.seealso@),
        blocks_v(b.references@) == blocks_v(a.references@),
        sections_v(b.sections@) == sections_v(a.sections@),
{
    reveal_strlit("author");
    reveal_strlit("value");
    reveal_strlit("returns");
    reveal_strlit("return");
    reveal_strlit("details");
    reveal_strlit("note");
    reveal_strlit("see also");
    reveal_strlit("seealso");
    reveal_strlit("references");
    assert("author"@.len() == 6 && "value"@.len() == 5 && "returns"@.len() == 7 && "return"@.len() == 6
        && "details"@.len() == 7 && "note"@.len() == 4 && "see also"@.len() == 8 && "seealso"@.len() == 7
        && "references"@.len() == 10);
    assert("author"@[0] == 'a' && "return"@[0] == 'r');
    assert(typ_route(title) == TypRoute::Author);
    let all = rs.push((Some(title), body));
    assert(all.drop_last() =~= rs);
    assert(blocks_v(a.author@) == blocks_v(before.author@) + routed(rs, TypRoute::Author));
    assert(blocks_v(b.author@) =~= blocks_v(a.author@) + raw_v(raw_text(body)));
    assert(blocks_v(b.note@) =~= blocks_v(a.note@));
    assert(blocks_v(b.value@) =~= blocks_v(a.value@));
    assert(blocks_v(b.details@) =~= blocks_v(a.details@));
    assert(blocks_v(b.seealso@) =~= blocks_v(a.seealso@));
    assert(blocks_v(b.references@) =~= blocks_v(a.references@));
    assert(sections_v(b.sections@) =~= sections_v(a.sections@));
}

proof fn lemma_routed_one(r: Region)
    ensures
        titled(seq![r]) == match r.0 {
            None => if lead_title(r.1).len() > 0 {
                Some(lead_title(r.1))
            } else {
                None
            },
            Some(_) => None,
        },
        described(seq![r]) == match r.0 {
            Some(_) => seq![],
            None => lead_description(r.1),
        },
        forall|route: TypRoute| #[trigger] routed(seq![r], route) == match r.0 {
            Some(t) => if typ_route(t) == route {
                raw_v(raw_text(r.1))
            } else {
                seq![]
            },
            None => seq![],
        },
        custom_sections(seq![r]) == match r.0 {
            Some(t) => if typ_route(t) == TypRoute::Custom {
                seq![(seq![InlineV::Raw(t)], raw_v(raw_text(r.1)))]
            } else {
                seq![]
            },
            None => seq![],
        },
{
    let e = Seq::<Region>::empty();
    assert(seq![r].drop_last() =~= e);
    assert forall|route: TypRoute| #[trigger] routed(seq![r], route) == match r.0 {
        Some(t) => if typ_route(t) == route {
            raw_v(raw_text(r.1))
        } else {
            seq![]
        },
        None => seq![],
    } by {
        assert(routed(e, route) =~= Seq::<BlockV>::empty());
        assert(routed(seq![r], route) =~= routed(e, route) + match r.0 {
            Some(t) => if typ_route(t) == route {
                raw_v(raw_text(r.1))
            } else {
                seq![]
            },
            None => seq![],
        });
    }
    assert(described(seq![r]) =~= described(e) + match r.0 {
        Some(_) => seq![],
        None => lead_description(r.1),
    });
    assert(titled(e) is None);
    assert(custom_sections(e) =~= Seq::<SectionV>::empty());
    match r.0 {
        Some(t) => {
            let x: SectionV = (seq![InlineV::Raw(t)], raw_v(raw_text(r.1)));
            assert(custom_sections(e).push(x) =~= seq![x]);
        },
        None => {},
    }
}

/// Route one region of a doc body: the leading region gives the title and
/// the description, a headed one the field its heading names.
fn flush_region(topic: &mut Topic, title: Option<Vec<char>>, lines: &Vec<Vec<char>>)
    ensures
        regions_routed(
            *old(topic),
            *final(topic),
            seq![
                (
                    opt_view(title),
                    char_views(lines@),
                ),
            ],
        ),
{
    let ghost t0 = *topic;
    let ghost r: Region = (
        opt_view(title),
        char_views(lines@),
    );
    proof {
        lemma_routed_one(r);
    }
    let ghost ls = char_views(lines@);
    match title {
        None => {
            // The leading region: the first paragraph is the title, joined
            // to one line because it lands inside a Typst heading.
            let mut blank: usize = 0;
            while blank < lines.len() && has_non_ws_exec(&lines[blank])
                invariant
                    blank <= lines.len(),
                    ls == char_views(lines@),
                    first_blank(ls, 0) == first_blank(ls, blank as int),
                decreases lines.len() - blank,
            {
                blank = blank + 1;
            }
            let mut head_lines: Vec<Vec<char>> = Vec::new();
            let mut k: usize = 0;
            while k < blank
                invariant
                    k <= blank <= lines.len(),
                    ls == char_views(lines@),
                    char_views(head_lines@) == ls.subrange(0, k as int),
                decreases blank - k,
            {
                let ghost before = head_lines@;
                let line = slice_chars(&lines[k], 0, lines[k].len());
                assert(line@ =~= lines@[k as int]@);
                head_lines.push(line);
                assert(char_views(head_lines@) =~= char_views(before).push(lines@[k as int]@));
                assert(char_views(head_lines@) =~= ls.subrange(0, k + 1));
                k = k + 1;
            }
            let head = trim_chars(&join_exec(&head_lines, " "));
            assert(head@ == lead_title(ls));
            if head.len() > 0 {
                topic.title = raw_inline(&head);
            }
            let more = raw_block(lines, blank, lines.len());
            proof {
                lemma_raw_v(more@, raw_text(ls.subrange(blank as int, ls.len() as int)));
            }
            append_raw(&mut topic.description, more);
            assert(sections_v(topic.sections@) =~= sections_v(t0.sections@) + custom_sections(seq![r]));
        },
        Some(title) => {
            let body = raw_block(lines, 0, lines.len());
            proof {
                assert(ls.subrange(0, ls.len() as int) =~= ls);
                lemma_raw_v(body@, raw_text(ls));
            }
            let lower = crate::man::names::to_lowercase(&title);
            let l = &lower;
            if crate::man::roff::is(l, "value") || crate::man::roff::is(l, "returns")
                || crate::man::roff::is(l, "return") {
                append_raw(&mut topic.value, body);
            } else if crate::man::roff::is(l, "details") {
                append_raw(&mut topic.details, body);
            } else if crate::man::roff::is(l, "note") {
                append_raw(&mut topic.note, body);
            } else if crate::man::roff::is(l, "see also") || crate::man::roff::is(l, "seealso") {
                append_raw(&mut topic.seealso, body);
            } else if crate::man::roff::is(l, "references") {
                append_raw(&mut topic.references, body);
            } else if crate::man::roff::is(l, "author") {
                append_raw(&mut topic.author, body);
            } else {
                // `Examples` included: a Typst doc body interleaves prose and
                // fenced code, which `Topic::examples` (bare runnable code)
                // cannot carry. A custom section renders the same.
                topic.sections.push(Section { title: raw_inline(&title), body });
                assert(sections_v(topic.sections@) =~= sections_v(t0.sections@).push(
                    (seq![InlineV::Raw(title@)], raw_v(raw_text(ls))),
                ));
            }
            assert(blocks_v(topic.description@) =~= blocks_v(t0.description@) + described(seq![r]));
            assert(sections_v(topic.sections@) =~= sections_v(t0.sections@) + custom_sections(seq![r]));
        },
    }
    assert(blocks_v(topic.value@) =~= blocks_v(t0.value@) + routed(seq![r], TypRoute::Value));
    assert(blocks_v(topic.details@) =~= blocks_v(t0.details@) + routed(seq![r], TypRoute::Details));
    assert(blocks_v(topic.note@) =~= blocks_v(t0.note@) + routed(seq![r], TypRoute::Note));
    assert(blocks_v(topic.seealso@) =~= blocks_v(t0.seealso@) + routed(seq![r], TypRoute::SeeAlso));
    assert(blocks_v(topic.references@) =~= blocks_v(t0.references@) + routed(seq![r], TypRoute::References));
    assert(blocks_v(topic.author@) =~= blocks_v(t0.author@) + routed(seq![r], TypRoute::Author));
}

/// Append `more` to `v`.
fn append_raw(v: &mut Vec<Block>, more: Vec<Block>)
    ensures
        blocks_v(final(v)@) == blocks_v(old(v)@) + blocks_v(more@),
{
    let mut more = more;
    let ghost a = v@;
    let ghost b = more@;
    v.append(&mut more);
    proof {
        lemma_blocks_v_concat(a, b);
    }
}

/// How far a doc body has been read: the regions closed so far, the
/// heading and lines of the one being read, and the fence open, if any, by
/// the length of its backtick run.
pub type BodyScan = (Seq<Region>, Option<Seq<char>>, Seq<Seq<char>>, Option<int>);

/// The fence open after a line whose trimmed start has a run of `ticks`
/// backticks: a run at least as long as the open one closes it, and one of
/// three or more opens one.
pub open spec fn fence_after(fence: Option<int>, ticks: int) -> Option<int> {
    match fence {
        Some(open) => if ticks >= open {
            None
        } else {
            Some(open)
        },
        None => if ticks >= 3 {
            Some(ticks)
        } else {
            None
        },
    }
}

/// One line of a doc body read: a level-1 heading outside any fence closes
/// the region and opens the next; any other line joins the region.
pub open spec fn body_step(st: BodyScan, line: Seq<char>) -> BodyScan {
    let (done, title, region, fence) = st;
    let ticks = backticks(trim_start(line), 0);
    let f = fence_after(fence, ticks);
    if f is None && ticks == 0 && starts_with(line, "= "@) {
        (done.push((title, region)), Some(trim(line.subrange(2, line.len() as int))), seq![], f)
    } else {
        (done, title, region.push(line), f)
    }
}

/// The first `n` lines of a doc body read.
pub open spec fn body_scan(lines: Seq<Seq<char>>, n: int) -> BodyScan
    decreases n,
{
    if n <= 0 || n > lines.len() {
        (seq![], None, seq![], None)
    } else {
        body_step(body_scan(lines, n - 1), lines[n - 1])
    }
}

/// The regions of the first `n` lines of a doc body: the leading one, then
/// one for each level-1 heading outside a code fence.
pub open spec fn body_regions(lines: Seq<Seq<char>>, n: int) -> Seq<Region> {
    let (done, title, region, _) = body_scan(lines, n);
    done.push((title, region))
}

proof fn lemma_regions_routed_push(a: Topic, b: Topic, c: Topic, rs: Seq<Region>, r: Region)
    requires
        regions_routed(a, b, rs),
        regions_routed(b, c, seq![r]),
    ensures
        regions_routed(a, c, rs.push(r)),
{
    lemma_routed_one(r);
    let all = rs.push(r);
    assert(all.drop_last() =~= rs);
    assert(all.last() == r);
    assert(routed(all, TypRoute::Value) == routed(rs, TypRoute::Value) + routed(seq![r], TypRoute::Value));
    assert(routed(all, TypRoute::Details) == routed(rs, TypRoute::Details) + routed(seq![r], TypRoute::Details));
    assert(routed(all, TypRoute::Note) == routed(rs, TypRoute::Note) + routed(seq![r], TypRoute::Note));
    assert(routed(all, TypRoute::SeeAlso) == routed(rs, TypRoute::SeeAlso) + routed(seq![r], TypRoute::SeeAlso));
    assert(routed(all, TypRoute::References) == routed(rs, TypRoute::References) + routed(seq![r], TypRoute::References));
    assert(routed(all, TypRoute::Author) == routed(rs, TypRoute::Author) + routed(seq![r], TypRoute::Author));
    assert(blocks_v(c.value@) =~= blocks_v(a.value@) + routed(all, TypRoute::Value));
    assert(blocks_v(c.details@) =~= blocks_v(a.details@) + routed(all, TypRoute::Details));
    assert(blocks_v(c.note@) =~= blocks_v(a.note@) + routed(all, TypRoute::Note));
    assert(blocks_v(c.seealso@) =~= blocks_v(a.seealso@) + routed(all, TypRoute::SeeAlso));
    assert(blocks_v(c.references@) =~= blocks_v(a.references@) + routed(all, TypRoute::References));
    assert(blocks_v(c.author@) =~= blocks_v(a.author@) + routed(all, TypRoute::Author));
    assert(blocks_v(c.description@) =~= blocks_v(a.description@) + described(all));
    assert(custom_sections(all) =~= custom_sections(rs) + custom_sections(seq![r]));
    assert(sections_v(c.sections@) =~= sections_v(a.sections@) + custom_sections(all));
}

proof fn lemma_regions_routed_none(a: Topic)
    ensures
        regions_routed(a, a, seq![]),
{
    let e = Seq::<Region>::empty();
    assert(blocks_v(a.value@) =~= blocks_v(a.value@) + routed(e, TypRoute::Value));
    assert(blocks_v(a.details@) =~= blocks_v(a.details@) + routed(e, TypRoute::Details));
    assert(blocks_v(a.note@) =~= blocks_v(a.note@) + routed(e, TypRoute::Note));
    assert(blocks_v(a.seealso@) =~= blocks_v(a.seealso@) + routed(e, TypRoute::SeeAlso));
    assert(blocks_v(a.references@) =~= blocks_v(a.references@) + routed(e, TypRoute::References));
    assert(blocks_v(a.author@) =~= blocks_v(a.author@) + routed(e, TypRoute::Author));
    assert(blocks_v(a.description@) =~= blocks_v(a.description@) + described(e));
    assert(sections_v(a.sections@) =~= sections_v(a.sections@) + custom_sections(e));
}

/// Partition a definition's doc body into title, description, and sections.
///
/// Level-1 headings outside code fences split the body; recognised titles
/// route to the matching topic field. Each region stays one [`Block::Raw`],
/// internal blank lines included — splitting into paragraphs would mean
/// re-parsing markup that must pass through untouched.
pub(crate) fn fill_body(topic: &mut Topic, lines: &Vec<Vec<char>>, n: usize)
    requires
        n <= lines.len(),
    ensures
        regions_routed(*old(topic), *final(topic), body_regions(char_views(lines@), n as int)),
{
    let ghost ls = char_views(lines@);
    let mut title: Option<Vec<char>> = None;
    let mut region: Vec<Vec<char>> = Vec::new();
    let mut fence: Option<usize> = None;
    let mut i: usize = 0;
    let ghost t0 = *topic;
    proof {
        reveal_strlit("= ");
        lemma_regions_routed_none(t0);
    }
    while i < n
        invariant
            i <= n <= lines.len(),
            "= "@.len() == 2,
            ls == char_views(lines@),
            ({
                let (done, t, r, f) = body_scan(ls, i as int);
                &&& regions_routed(t0, *topic, done)
                &&& t == opt_view(title)
                &&& r == char_views(region@)
                &&& f == match fence {
                    Some(o) => Some(o as int),
                    None => None,
                }
            }),
        decreases n - i,
    {
        let line = &lines[i];
        assert(ls[i as int] == line@);
        let ticks = leading_backticks(&trim_start_chars(line));
        match fence {
            Some(open) => {
                if ticks >= open {
                    fence = None;
                }
            },
            None => {
                if ticks >= 3 {
                    fence = Some(ticks);
                }
            },
        }
        if fence.is_none() && ticks == 0 && starts_with_exec(line, "= ") {
            let mut previous: Vec<Vec<char>> = Vec::new();
            std::mem::swap(&mut previous, &mut region);
            let heading = trim_chars(&slice_chars(line, 2, line.len()));
            let mut done: Option<Vec<char>> = Some(heading);
            std::mem::swap(&mut done, &mut title);
            let ghost mid = *topic;
            let ghost closed: Region = (
                opt_view(done),
                char_views(previous@),
            );
            flush_region(topic, done, &previous);
            proof {
                lemma_regions_routed_push(t0, mid, *topic, body_scan(ls, i as int).0, closed);
            }
            assert(char_views(region@) =~= Seq::<Seq<char>>::empty());
        } else {
            let ghost before = region@;
            let copy = slice_chars(line, 0, line.len());
            assert(copy@ =~= line@);
            region.push(copy);
            assert(char_views(region@) =~= char_views(before).push(line@));
        }
        i = i + 1;
    }
    let ghost mid = *topic;
    let ghost last: Region = (
        opt_view(title),
        char_views(region@),
    );
    flush_region(topic, title, &region);
    proof {
        lemma_regions_routed_push(t0, mid, *topic, body_scan(ls, n as int).0, last);
    }
}

// -- parameters and signatures -----------------------------------------------------

/// A parameter documented by `doc`: its one name, its types joined with
/// ` | `, its default, and the doc body as one verbatim block.
pub open spec fn param_spec(p: Param, name: Seq<char>, default: Option<Seq<char>>, doc: Seq<Seq<char>>) -> bool {
    let (types, n) = split_types_spec(doc);
    &&& crate::man::roff::views(p.names@) == seq![name]
    &&& match p.ty {
        Some(t) => types.len() > 0 && t@ == join(types, " | "@),
        None => types.len() == 0,
    }
    &&& crate::python::opt_text(p.default) == default
    &&& !p.optional
    &&& raw_blocks_are(p.body@, raw_text(doc.subrange(0, n)))
}

pub(crate) fn param(name: Vec<char>, default: Option<String>, doc: &Vec<Vec<char>>) -> (r: Param)
    ensures
        param_spec(r, name@, crate::python::opt_text(default), char_views(doc@)),
{
    let (types, n) = split_types(doc);
    proof {
        lemma_split_bound(char_views(doc@));
    }
    let ty = if types.len() > 0 {
        Some(string_of(join_exec(&types, " | ").as_slice()))
    } else {
        None
    };
    let mut names: Vec<String> = Vec::new();
    names.push(string_of(name.as_slice()));
    assert(crate::man::roff::views(names@) =~= seq![name@]);
    Param { names, ty, default, optional: false, body: raw_block(doc, 0, n) }
}

proof fn lemma_split_bound(lines: Seq<Seq<char>>)
    ensures
        0 <= split_types_spec(lines).1 <= lines.len(),
{
    lemma_last_nonblank(lines, lines.len() as int);
}

/// One parameter as a signature shows it: `name` or `name: default`.
pub open spec fn sig_part(p: Param) -> Seq<char> {
    match p.default {
        Some(d) => p.names@[0]@ + ": "@ + d@,
        None => p.names@[0]@,
    }
}

pub open spec fn sig_parts(ps: Seq<Param>) -> Seq<Seq<char>>
    decreases ps.len(),
{
    if ps.len() == 0 {
        seq![]
    } else {
        sig_parts(ps.drop_last()).push(sig_part(ps.last()))
    }
}

/// The signature of a definition: on one line when it is short and has at
/// most three parameters, and otherwise one parameter per line with a
/// two-space indent. The return type follows the closing parenthesis.
pub open spec fn signature_spec(name: Seq<char>, ps: Seq<Param>, types: Seq<Seq<char>>) -> Seq<char> {
    let suffix = if types.len() == 0 {
        seq![]
    } else {
        " -> "@ + join(types, " | "@)
    };
    let one_line = name + "("@ + join(sig_parts(ps), ", "@) + ")"@ + suffix;
    if crate::text::utf8_len(one_line) <= 78 && ps.len() <= 3 {
        one_line
    } else {
        name + "(\n  "@ + join(sig_parts(ps), ",\n  "@) + "\n)"@ + suffix
    }
}

/// Reconstruct the signature; the raw source span is unusable because it
/// interleaves the `///` blocks. Parameter types stay out — they render in
/// the Arguments table — but the return type is part of how the function is
/// called.
pub(crate) fn signature(name: &Vec<char>, params: &Vec<Param>, types: &Vec<Vec<char>>) -> (r: Vec<char>)
    requires
        forall|k: int| 0 <= k < params@.len() ==> (#[trigger] params@[k]).names@.len() > 0,
    ensures
        r@ == signature_spec(name@, params@, char_views(types@)),
{
    let mut parts: Vec<Vec<char>> = Vec::new();
    let mut i: usize = 0;
    assert(params@.subrange(0, 0) =~= Seq::<Param>::empty());
    while i < params.len()
        invariant
            i <= params.len(),
            forall|k: int| 0 <= k < params@.len() ==> (#[trigger] params@[k]).names@.len() > 0,
            char_views(parts@) == sig_parts(params@.subrange(0, i as int)),
        decreases params.len() - i,
    {
        let p = &params[i];
        assert(p.names@.len() > 0);
        let mut part = chars_of(p.names[0].as_str());
        match &p.default {
            Some(d) => {
                push_str(&mut part, ": ");
                push_chars(&mut part, &chars_of(d.as_str()));
            },
            None => {},
        }
        let ghost before = char_views(parts@);
        parts.push(part);
        assert(params@.subrange(0, i + 1).drop_last() =~= params@.subrange(0, i as int));
        assert(char_views(parts@) =~= before.push(sig_part(params@[i as int])));
        i = i + 1;
    }
    assert(params@.subrange(0, i as int) =~= params@);
    let mut suffix: Vec<char> = Vec::new();
    if types.len() > 0 {
        push_str(&mut suffix, " -> ");
        push_chars(&mut suffix, &join_exec(types, " | "));
    }
    assert(suffix@ =~= (if types@.len() == 0 {
        Seq::<char>::empty()
    } else {
        " -> "@ + join(char_views(types@), " | "@)
    }));
    let mut one_line = slice_chars(name, 0, name.len());
    push_str(&mut one_line, "(");
    push_chars(&mut one_line, &join_exec(&parts, ", "));
    push_str(&mut one_line, ")");
    push_chars(&mut one_line, &suffix);
    assert(char_views(parts@) == sig_parts(params@));
    assert(one_line@ =~= name@ + "("@ + join(sig_parts(params@), ", "@) + ")"@ + suffix@);
    if crate::text::utf8_len_exec(&one_line) <= 78 && params.len() <= 3 {
        return one_line;
    }
    // Long or many-parameter signatures break like a multi-line R usage
    // block: one parameter per line, two-space indent.
    let mut out = slice_chars(name, 0, name.len());
    push_str(&mut out, "(\n  ");
    push_chars(&mut out, &join_exec(&parts, ",\n  "));
    push_str(&mut out, "\n)");
    push_chars(&mut out, &suffix);
    out
}

// -- the tree walk ------------------------------------------------------------------

/// The text of the first identifier among a node's direct children.
pub open spec fn ident_of(node: Cst) -> Option<Seq<char>> {
    first_ident(node.children@, 0)
}

pub open spec fn first_ident(children: Seq<Cst>, i: int) -> Option<Seq<char>>
    decreases children.len() - i,
{
    if i < 0 || i >= children.len() {
        None
    } else if children[i].kind@ == "identifier"@ {
        Some(children[i].text@)
    } else {
        first_ident(children, i + 1)
    }
}

fn ident_text(node: &Cst) -> (r: Option<Vec<char>>)
    ensures
        match r {
            Some(t) => ident_of(*node) == Some(t@),
            None => ident_of(*node) is None,
        },
{
    let mut i: usize = 0;
    while i < node.children.len()
        invariant
            i <= node.children.len(),
            ident_of(*node) == first_ident(node.children@, i as int),
        decreases node.children.len() - i,
    {
        if kind_is(&node.children[i], "identifier") {
            return Some(chars_of(node.children[i].text.as_str()));
        }
        i = i + 1;
    }
    None
}

/// The first of `cs` from `i` of kind `kind`.
pub open spec fn first_kind(cs: Seq<Cst>, kind: Seq<char>, i: int) -> Option<Cst>
    decreases cs.len() - i,
{
    if i < 0 || i >= cs.len() {
        None
    } else if cs[i].kind@ == kind {
        Some(cs[i])
    } else {
        first_kind(cs, kind, i + 1)
    }
}

fn first_child_of_kind<'a>(node: &'a Cst, kind: &str) -> (r: Option<&'a Cst>)
    ensures
        match r {
            Some(c) => first_kind(node.children@, kind@, 0) == Some(*c),
            None => first_kind(node.children@, kind@, 0) is None,
        },
{
    let mut i: usize = 0;
    while i < node.children.len()
        invariant
            i <= node.children.len(),
            first_kind(node.children@, kind@, 0) == first_kind(node.children@, kind@, i as int),
        decreases node.children.len() - i,
    {
        if kind_is(&node.children[i], kind) {
            return Some(&node.children[i]);
        }
        i = i + 1;
    }
    None
}

/// Where the first colon of `cs` from `i` stands, or the end.
pub open spec fn colon_at(cs: Seq<Cst>, i: int) -> int
    decreases cs.len() - i,
{
    if i < 0 || i >= cs.len() {
        cs.len() as int
    } else if cs[i].kind@ == "colon"@ {
        i
    } else {
        colon_at(cs, i + 1)
    }
}

/// Whether a node is a colon, whitespace or a comment.
pub open spec fn filler(c: Cst) -> bool {
    c.kind@ == "colon"@ || c.kind@ == "space"@ || c.kind@ == "line comment"@
}

/// The text of the first node of `cs` from `i` that is no filler.
pub open spec fn value_from(cs: Seq<Cst>, i: int) -> Option<Seq<char>>
    decreases cs.len() - i,
{
    if i < 0 || i >= cs.len() {
        None
    } else if !filler(cs[i]) {
        Some(cs[i].text@)
    } else {
        value_from(cs, i + 1)
    }
}

/// The default value of a named parameter: the text of the first node
/// after its colon that is no filler.
pub open spec fn default_spec(named: Cst) -> Option<Seq<char>> {
    value_from(named.children@, colon_at(named.children@, 0))
}

/// The default value of a named parameter: the expression after the colon,
/// as the source spells it.
fn default_of(named: &Cst) -> (r: Option<String>)
    ensures
        crate::python::opt_text(r) == default_spec(*named),
{
    let ghost cs = named.children@;
    let mut i: usize = 0;
    while i < named.children.len() && !kind_is(&named.children[i], "colon")
        invariant
            i <= named.children.len(),
            cs == named.children@,
            colon_at(cs, 0) == colon_at(cs, i as int),
        decreases named.children.len() - i,
    {
        i = i + 1;
    }
    while i < named.children.len()
        invariant
            i <= named.children.len(),
            cs == named.children@,
            default_spec(*named) == value_from(cs, i as int),
        decreases named.children.len() - i,
    {
        let child = &named.children[i];
        if !(kind_is(child, "colon") || kind_is(child, "space") || kind_is(child, "line comment")) {
            return Some(string_of(chars_of(child.text.as_str()).as_slice()));
        }
        i = i + 1;
    }
    None
}

/// How many newlines `s[..n]` holds.
pub open spec fn newlines(s: Seq<char>, n: int) -> int
    decreases n,
{
    if n <= 0 || n > s.len() {
        0
    } else {
        newlines(s, n - 1) + if s[n - 1] == '\n' {
            1int
        } else {
            0int
        }
    }
}

/// A blank line: whitespace holding two newlines or more.
pub open spec fn blank_run(text: Seq<char>) -> bool {
    newlines(text, text.len() as int) >= 2
}

/// A blank line: whitespace holding two newlines or more.
fn ends_run(text: &String) -> (r: bool)
    ensures
        r == blank_run(text@),
{
    let v = chars_of(text.as_str());
    let mut count: usize = 0;
    let mut i: usize = 0;
    while i < v.len()
        invariant
            i <= v.len(),
            v@ == text@,
            count == newlines(v@, i as int),
            count <= i,
        decreases v.len() - i,
    {
        if v[i] == '\n' {
            count = count + 1;
        }
        i = i + 1;
    }
    count >= 2
}

fn take_lines(pending: &mut Vec<Vec<char>>) -> (r: Vec<Vec<char>>)
    ensures
        final(pending)@.len() == 0,
        r@ == old(pending)@,
{
    let mut taken: Vec<Vec<char>> = Vec::new();
    std::mem::swap(&mut taken, pending);
    taken
}

/// A parameter as a closure's parameter list gives it: its name, its
/// default, and its doc run.
pub type ParamEntry = (Seq<char>, Option<Seq<char>>, Seq<Seq<char>>);

/// One node of a closure's parameter list read after `st`, the parameters
/// so far and the pending doc run: `///` lines collect, a blank line or an
/// ordinary comment ends the run, and each parameter takes the run before
/// it. Punctuation leaves the run alone; any other node ends it.
pub open spec fn param_step(st: (Seq<ParamEntry>, Seq<Seq<char>>), c: Cst) -> (Seq<ParamEntry>, Seq<Seq<char>>) {
    let (ps, pending) = st;
    if c.kind@ == "line comment"@ {
        match doc_line_spec(c.text@) {
            Some(l) => (ps, pending.push(l)),
            None => (ps, seq![]),
        }
    } else if c.kind@ == "space"@ {
        if blank_run(c.text@) {
            (ps, seq![])
        } else {
            (ps, pending)
        }
    } else if c.kind@ == "identifier"@ {
        (ps.push((c.text@, None, pending)), seq![])
    } else if c.kind@ == "named pair"@ {
        match ident_of(c) {
            Some(n) => (ps.push((n, default_spec(c), pending)), seq![]),
            None => (ps, pending),
        }
    } else if c.kind@ == "spread"@ {
        let n = match ident_of(c) {
            Some(n) => n,
            None => seq![],
        };
        (ps.push((".."@ + n, None, pending)), seq![])
    } else if c.kind@ == "comma"@ || c.kind@ == "opening paren"@ || c.kind@ == "closing paren"@ {
        (ps, pending)
    } else {
        (ps, seq![])
    }
}

/// The first `n` nodes of a closure's parameter list read.
pub open spec fn params_scan(cs: Seq<Cst>, n: int) -> (Seq<ParamEntry>, Seq<Seq<char>>)
    decreases n,
{
    if n <= 0 || n > cs.len() {
        (seq![], seq![])
    } else {
        param_step(params_scan(cs, n - 1), cs[n - 1])
    }
}

/// Whether `ps` are the parameters `es` describe, one for one.
pub open spec fn params_match(ps: Seq<Param>, es: Seq<ParamEntry>) -> bool {
    ps.len() == es.len() && forall|k: int|
        0 <= k < ps.len() ==> param_spec(#[trigger] ps[k], es[k].0, es[k].1, es[k].2)
}

/// Convert a closure's parameter list, documented or not, in source order.
fn params_of(params: &Cst) -> (r: Vec<Param>)
    ensures
        params_match(r@, params_scan(params.children@, params.children@.len() as int).0),
        forall|k: int| 0 <= k < r@.len() ==> (#[trigger] r@[k]).names@.len() == 1,
{
    let ghost cs = params.children@;
    let mut out: Vec<Param> = Vec::new();
    let mut pending: Vec<Vec<char>> = Vec::new();
    let mut i: usize = 0;
    while i < params.children.len()
        invariant
            i <= params.children.len(),
            cs == params.children@,
            params_match(out@, params_scan(cs, i as int).0),
            char_views(pending@) == params_scan(cs, i as int).1,
            forall|k: int| 0 <= k < out@.len() ==> (#[trigger] out@[k]).names@.len() == 1,
        decreases params.children.len() - i,
    {
        let child = &params.children[i];
        let ghost before = out@;
        let ghost pend = char_views(pending@);
        let ghost es = params_scan(cs, i as int).0;
        proof {
            reveal_strlit("..");
        }
        if kind_is(child, "line comment") {
            match doc_line(&chars_of(child.text.as_str())) {
                Some(line) => {
                    pending.push(line);
                    assert(char_views(pending@) =~= pend.push(line@));
                },
                None => {
                    pending.clear();
                    assert(char_views(pending@) =~= Seq::<Seq<char>>::empty());
                },
            }
        } else if kind_is(child, "space") {
            if ends_run(&child.text) {
                pending.clear();
                assert(char_views(pending@) =~= Seq::<Seq<char>>::empty());
            }
        } else if kind_is(child, "identifier") {
            let doc = take_lines(&mut pending);
            let p = param(chars_of(child.text.as_str()), None, &doc);
            out.push(p);
            assert(char_views(pending@) =~= Seq::<Seq<char>>::empty());
        } else if kind_is(child, "named pair") {
            match ident_text(child) {
                Some(name) => {
                    let doc = take_lines(&mut pending);
                    let p = param(name, default_of(child), &doc);
                    out.push(p);
                    assert(char_views(pending@) =~= Seq::<Seq<char>>::empty());
                },
                None => {},
            }
        } else if kind_is(child, "spread") {
            let mut name = chars_of("..");
            match ident_text(child) {
                Some(n) => push_chars(&mut name, &n),
                None => {},
            }
            let doc = take_lines(&mut pending);
            let p = param(name, None, &doc);
            out.push(p);
            assert(char_views(pending@) =~= Seq::<Seq<char>>::empty());
        } else if kind_is(child, "comma") || kind_is(child, "opening paren") || kind_is(
            child,
            "closing paren",
        ) {
        } else {
            // A placeholder or destructuring pattern binds no documentable
            // name.
            pending.clear();
            assert(char_views(pending@) =~= Seq::<Seq<char>>::empty());
        }
        proof {
            let es2 = params_scan(cs, i + 1).0;
            assert forall|k: int| 0 <= k < out@.len() implies param_spec(
                #[trigger] out@[k],
                es2[k].0,
                es2[k].1,
                es2[k].2,
            ) && out@[k].names@.len() == 1 by {
                if k < before.len() {
                    assert(out@[k] == before[k]);
                    assert(es2[k] == es[k]);
                } else {
                    assert(crate::man::roff::views(out@[k].names@).len() == 1);
                }
            }
        }
        i = i + 1;
    }
    out
}

/// The name a `let` binding defines: its closure's, or its own
/// identifier.
pub open spec fn binding_name(b: Cst) -> Option<Seq<char>> {
    match first_kind(b.children@, "closure"@, 0) {
        Some(c) => ident_of(c),
        None => ident_of(b),
    }
}

/// Whether a binding with the doc run `doc` becomes a topic: it has a doc
/// run and a name, and the name is public.
pub open spec fn documented(b: Cst, doc: Seq<Seq<char>>) -> bool {
    &&& doc.len() > 0
    &&& binding_name(b) matches Some(n) && !(n.len() > 0 && n[0] == '_')
}

/// The parameter list of a function binding.
pub open spec fn param_list(b: Cst) -> Option<Cst> {
    match first_kind(b.children@, "closure"@, 0) {
        Some(c) => first_kind(c.children@, "closure parameters"@, 0),
        None => None,
    }
}

/// The topic a documented binding `b` with doc run `doc` gives: named by
/// the binding; its body routed by headings; for a function, its parameters
/// and signature; for a variable, its type as code leading the description.
pub open spec fn typ_topic_of(b: Cst, doc: Seq<Seq<char>>, t: Topic) -> bool {
    let name = binding_name(b)->0;
    let (types, n) = split_types_spec(doc);
    let regions = body_regions(doc, n);
    &&& t.name@ == name
    &&& t.lang matches Some(l) && l@ == "typ"@
    &&& inlines_v(t.title@) == match titled(regions) {
        Some(x) => seq![InlineV::Raw(x)],
        None => seq![],
    }
    &&& match param_list(b) {
        Some(ps) => {
            &&& params_match(t.params@, params_scan(ps.children@, ps.children@.len() as int).0)
            &&& t.signature matches Some(sig) && sig@ == signature_spec(name, t.params@, types)
            &&& blocks_v(t.description@) == described(regions)
        },
        None => {
            &&& t.params@.len() == 0
            &&& t.signature is None
            &&& blocks_v(t.description@) == (if types.len() > 0 {
                seq![BlockV::Raw("`"@ + join(types, " | "@) + "`"@)]
            } else {
                seq![]
            }) + described(regions)
        },
    }
    &&& blocks_v(t.value@) == routed(regions, TypRoute::Value)
    &&& blocks_v(t.details@) == routed(regions, TypRoute::Details)
    &&& blocks_v(t.note@) == routed(regions, TypRoute::Note)
    &&& blocks_v(t.seealso@) == routed(regions, TypRoute::SeeAlso)
    &&& blocks_v(t.references@) == routed(regions, TypRoute::References)
    &&& blocks_v(t.author@) == routed(regions, TypRoute::Author)
    &&& sections_v(t.sections@) == custom_sections(regions)
    &&& t.aliases@.len() == 0
    &&& t.keywords@.len() == 0
    &&& t.raises@.len() == 0
    &&& t.examples@.len() == 0
}

/// Whether a topic is one this reader makes: a Typst definition with a
/// public name.
pub open spec fn typ_topic(t: Topic) -> bool {
    &&& t.lang matches Some(l) && l@ == "typ"@
    &&& !(t.name@.len() > 0 && t.name@[0] == '_')
}

/// Convert one documented `let` binding to a topic.
fn topic_of(binding: &Cst, doc: &Vec<Vec<char>>) -> (r: Option<Topic>)
    ensures
        r is Some <==> documented(*binding, char_views(doc@)),
        r matches Some(t) ==> typ_topic_of(*binding, char_views(doc@), t) && typ_topic(t),
{
    if doc.len() == 0 {
        return None;
    }
    let closure = first_child_of_kind(binding, "closure");
    // A closure without a name is a lambda bound like any other value, and a
    // destructuring pattern names no single entity; both fall out here.
    let name = match closure {
        Some(c) => ident_text(c),
        None => ident_text(binding),
    };
    let name = match name {
        Some(n) => n,
        None => {
            return None;
        },
    };
    if name.len() > 0 && name[0] == '_' {
        return None;
    }
    let ghost ds = char_views(doc@);
    let (types, n) = split_types(doc);
    proof {
        lemma_split_bound(char_views(doc@));
    }
    let name_string = string_of(name.as_slice());
    let mut topic = Topic::new(name_string.as_str());
    topic.lang = Some(owned("typ"));
    let ghost bare = topic;
    fill_body(&mut topic, doc, n);
    let ghost regions = body_regions(ds, n as int);
    proof {
        assert(blocks_v(bare.description@) =~= Seq::<BlockV>::empty());
        assert(blocks_v(bare.value@) =~= Seq::<BlockV>::empty());
        assert(blocks_v(bare.details@) =~= Seq::<BlockV>::empty());
        assert(blocks_v(bare.note@) =~= Seq::<BlockV>::empty());
        assert(blocks_v(bare.seealso@) =~= Seq::<BlockV>::empty());
        assert(blocks_v(bare.references@) =~= Seq::<BlockV>::empty());
        assert(blocks_v(bare.author@) =~= Seq::<BlockV>::empty());
        assert(sections_v(bare.sections@) =~= Seq::<SectionV>::empty());
        assert(inlines_v(bare.title@) =~= Seq::<InlineV>::empty());
        assert(Seq::<BlockV>::empty() + described(regions) =~= described(regions));
        assert(Seq::<BlockV>::empty() + routed(regions, TypRoute::Value) =~= routed(regions, TypRoute::Value));
        assert(Seq::<BlockV>::empty() + routed(regions, TypRoute::Details) =~= routed(regions, TypRoute::Details));
        assert(Seq::<BlockV>::empty() + routed(regions, TypRoute::Note) =~= routed(regions, TypRoute::Note));
        assert(Seq::<BlockV>::empty() + routed(regions, TypRoute::SeeAlso) =~= routed(regions, TypRoute::SeeAlso));
        assert(Seq::<BlockV>::empty() + routed(regions, TypRoute::References) =~= routed(regions, TypRoute::References));
        assert(Seq::<BlockV>::empty() + routed(regions, TypRoute::Author) =~= routed(regions, TypRoute::Author));
        assert(Seq::<SectionV>::empty() + custom_sections(regions) =~= custom_sections(regions));
    }
    let params = match closure {
        Some(c) => first_child_of_kind(c, "closure parameters"),
        None => None,
    };
    match params {
        Some(ps) => {
            let list = params_of(ps);
            let sig = signature(&name, &list, &types);
            topic.params = list;
            topic.signature = Some(string_of(sig.as_slice()));
        },
        None => {
            // A variable binding: no signature to show, so the type
            // annotation, if any, leads the description as inline code
            // instead.
            if types.len() > 0 {
                let mut t = chars_of("`");
                push_chars(&mut t, &join_exec(&types, " | "));
                push_str(&mut t, "`");
                let ghost before = topic.description@;
                let lead = Block::Raw(string_of(t.as_slice()));
                topic.description.insert(0, lead);
                proof {
                    lemma_blocks_v_index(before);
                    lemma_blocks_v_index(topic.description@);
                    assert(topic.description@ =~= seq![lead] + before);
                    assert(blocks_v(topic.description@) =~= seq![BlockV::Raw(t@)] + blocks_v(before));
                }
            } else {
                assert(blocks_v(topic.description@) =~= Seq::<BlockV>::empty() + described(regions));
            }
        },
    }
    Some(topic)
}

/// Every topic in `topics` is one this reader makes.
pub open spec fn all_typ(topics: Seq<Topic>) -> bool {
    forall|k: int| 0 <= k < topics.len() ==> typ_topic(#[trigger] topics[k])
}

/// A documented binding a walk finds, with its doc run.
pub type Found = (Cst, Seq<Seq<char>>);

/// A node walked with the doc run `pending` flowing into it: the
/// documented bindings it holds, in source order, and the run it leaves.
pub open spec fn walk(node: Cst, pending: Seq<Seq<char>>) -> (Seq<Found>, Seq<Seq<char>>)
    decreases node, 0int,
{
    walk_children(node.children@, node.children@.len() as int, pending)
}

/// The first `n` of the children `cs` walked with `pending` flowing in: a
/// `///` line extends the run, a blank line or another comment ends it, a
/// `let` binding takes it and starts its own body afresh, and any other
/// node takes it inward and ends it.
pub open spec fn walk_children(cs: Seq<Cst>, n: int, pending: Seq<Seq<char>>) -> (Seq<Found>, Seq<Seq<char>>)
    decreases cs, n,
{
    if n <= 0 || n > cs.len() {
        (seq![], pending)
    } else {
        let (found, p) = walk_children(cs, n - 1, pending);
        let c = cs[n - 1];
        if c.kind@ == "line comment"@ {
            match doc_line_spec(c.text@) {
                Some(l) => (found, p.push(l)),
                None => (found, seq![]),
            }
        } else if c.kind@ == "space"@ {
            if blank_run(c.text@) {
                (found, seq![])
            } else {
                (found, p)
            }
        } else if c.kind@ == "paragraph break"@ {
            (found, seq![])
        } else if c.kind@ == "hash"@ {
            (found, p)
        } else if c.kind@ == "`let` expression"@ {
            (
                found + (if documented(c, p) {
                    seq![(c, p)]
                } else {
                    seq![]
                }) + walk(c, seq![]).0,
                seq![],
            )
        } else {
            (found + walk(c, p).0, seq![])
        }
    }
}

/// Whether `ts` are the topics of the bindings `fs`, one for one.
pub open spec fn typ_topics_are(ts: Seq<Topic>, fs: Seq<Found>) -> bool {
    ts.len() == fs.len() && forall|k: int|
        0 <= k < ts.len() ==> typ_topic_of(fs[k].0, fs[k].1, #[trigger] ts[k]) && typ_topic(ts[k])
}

proof fn lemma_typ_topics_concat(a: Seq<Topic>, fa: Seq<Found>, b: Seq<Topic>, fb: Seq<Found>)
    requires
        typ_topics_are(a, fa),
        typ_topics_are(b, fb),
    ensures
        typ_topics_are(a + b, fa + fb),
{
    assert forall|k: int| 0 <= k < (a + b).len() implies typ_topic_of(
        (fa + fb)[k].0,
        (fa + fb)[k].1,
        #[trigger] (a + b)[k],
    ) && typ_topic((a + b)[k]) by {
        if k < a.len() {
            assert((a + b)[k] == a[k]);
        } else {
            assert((a + b)[k] == b[k - a.len()]);
        }
    }
}

/// Walk the tree, attaching each `///` run to the binding it immediately
/// precedes.
fn collect(node: &Cst, pending: &mut Vec<Vec<char>>, out: &mut Vec<Topic>)
    ensures
        final(out)@.len() >= old(out)@.len(),
        final(out)@.subrange(0, old(out)@.len() as int) == old(out)@,
        typ_topics_are(
            final(out)@.subrange(old(out)@.len() as int, final(out)@.len() as int),
            walk(*node, char_views(old(pending)@)).0,
        ),
        char_views(final(pending)@) == walk(*node, char_views(old(pending)@)).1,
    decreases node,
{
    let ghost start = out@;
    let ghost p0 = char_views(pending@);
    let ghost cs = node.children@;
    let mut i: usize = 0;
    assert(out@.subrange(0, start.len() as int) =~= start);
    assert(out@.subrange(start.len() as int, out@.len() as int) =~= Seq::<Topic>::empty());
    while i < node.children.len()
        invariant
            i <= node.children.len(),
            cs == node.children@,
            out@.len() >= start.len(),
            out@.subrange(0, start.len() as int) == start,
            typ_topics_are(out@.subrange(start.len() as int, out@.len() as int), walk_children(cs, i as int, p0).0),
            char_views(pending@) == walk_children(cs, i as int, p0).1,
        decreases node.children.len() - i,
    {
        let child = &node.children[i];
        proof {
            assert(decreases_to!(node => node.children));
            assert(decreases_to!(node.children => node.children@));
            assert(decreases_to!(node.children@ => node.children@[i as int]));
            assert(decreases_to!(node => *child));
        }
        let ghost mid = out@;
        let ghost done = out@.subrange(start.len() as int, out@.len() as int);
        let ghost found = walk_children(cs, i as int, p0).0;
        let ghost pend = char_views(pending@);
        if kind_is(child, "line comment") {
            match doc_line(&chars_of(child.text.as_str())) {
                Some(line) => {
                    pending.push(line);
                    assert(char_views(pending@) =~= pend.push(line@));
                },
                None => {
                    pending.clear();
                    assert(char_views(pending@) =~= Seq::<Seq<char>>::empty());
                },
            }
        } else if kind_is(child, "space") {
            // A single newline keeps a run alive; a blank line ends it.
            if ends_run(&child.text) {
                pending.clear();
                assert(char_views(pending@) =~= Seq::<Seq<char>>::empty());
            }
        } else if kind_is(child, "paragraph break") {
            // Markup mode spells the blank line as a paragraph break.
            pending.clear();
            assert(char_views(pending@) =~= Seq::<Seq<char>>::empty());
        } else if kind_is(child, "hash") {
            // The `#` of markup mode sits between a run and its binding.
        } else if kind_is(child, "`let` expression") {
            let doc = take_lines(pending);
            assert(char_views(doc@) == pend);
            let ghost own: Seq<Found> = if documented(*child, pend) {
                seq![(*child, pend)]
            } else {
                seq![]
            };
            match topic_of(child, &doc) {
                Some(topic) => {
                    out.push(topic);
                    proof {
                        assert(typ_topics_are(seq![topic], own));
                        lemma_typ_topics_concat(done, found, seq![topic], own);
                        assert(out@.subrange(start.len() as int, out@.len() as int) =~= done + seq![topic]);
                        assert(out@.subrange(0, start.len() as int) =~= mid.subrange(0, start.len() as int));
                    }
                },
                None => {
                    assert(found + own =~= found);
                },
            }
            // Definitions nested in the body start runs of their own.
            let ghost before = out@;
            let mut fresh: Vec<Vec<char>> = Vec::new();
            assert(char_views(fresh@) =~= Seq::<Seq<char>>::empty());
            collect(child, &mut fresh, out);
            proof {
                let added = out@.subrange(before.len() as int, out@.len() as int);
                lemma_typ_topics_concat(
                    before.subrange(start.len() as int, before.len() as int),
                    found + own,
                    added,
                    walk(*child, seq![]).0,
                );
                assert(out@.subrange(start.len() as int, out@.len() as int) =~= before.subrange(
                    start.len() as int,
                    before.len() as int,
                ) + added);
                assert(out@.subrange(0, start.len() as int) =~= before.subrange(0, start.len() as int));
                assert(char_views(pending@) =~= Seq::<Seq<char>>::empty());
            }
        } else {
            let mut inner = take_lines(pending);
            assert(char_views(inner@) == pend);
            let ghost before = out@;
            collect(child, &mut inner, out);
            proof {
                let added = out@.subrange(before.len() as int, out@.len() as int);
                lemma_typ_topics_concat(done, found, added, walk(*child, pend).0);
                assert(out@.subrange(start.len() as int, out@.len() as int) =~= done + added);
                assert(out@.subrange(0, start.len() as int) =~= before.subrange(0, start.len() as int));
                assert(char_views(pending@) =~= Seq::<Seq<char>>::empty());
            }
        }
        i = i + 1;
    }
}

/// Parse Typst source and convert every documented `let` binding to a
/// [`Topic`], in source order.
///
/// Parsing is total: `typst-syntax` always produces a tree, and a file with
/// no documented definitions yields an empty Vec.
pub fn parse(source: &str) -> (r: Vec<Topic>)
    ensures
        typ_topics_are(r@, walk(syntax::markup_tree(source@), seq![]).0),
        all_typ(r@),
{
    let root = syntax::parse_markup(source);
    let mut topics: Vec<Topic> = Vec::new();
    let mut pending: Vec<Vec<char>> = Vec::new();
    assert(char_views(pending@) =~= Seq::<Seq<char>>::empty());
    collect(&root, &mut pending, &mut topics);
    assert(topics@.subrange(0, topics@.len() as int) =~= topics@);
    topics
}

} // verus!
