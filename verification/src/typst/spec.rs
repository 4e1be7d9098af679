//! What the writer writes, stated over its state: the text so far and
//! whether that text ends at the start of a line.

use vstd::prelude::*;

use super::escape::{escape, indent, string_array, string_literal};
use super::html::html_fragment;
use super::{Entry, Options, ParamsFormat};
use crate::ir::inline::condition_text;
use crate::ir::{Align, Block, Example, Inline, LinkDest, Param, Target, Term, Topic};
use crate::text::{alphanumeric, ends_with, has_non_ws, is_ws, join, repeat, trim, trim_end};

verus! {

broadcast use vstd::std_specs::vec::axiom_vec_decreases_to_view;

/// The writer's state: the text written so far, and whether it ends at the
/// start of a line.
pub type St = (Seq<char>, bool);

/// The label lookups in force: the referring topic's own scope, if any,
/// then the run's.
pub type Ctx = (Option<Seq<(String, String)>>, Seq<(String, String)>);

/// End the current line, unless already at the start of one.
pub open spec fn newline(st: St) -> St {
    if !st.1 {
        (st.0.push('\n'), true)
    } else {
        st
    }
}

/// End the current line and leave one blank line, unless the output is empty
/// or already ends in one.
pub open spec fn blank_line(st: St) -> St {
    let s = newline(st);
    if s.0.len() > 0 && !ends_with(s.0, seq!['\n', '\n']) {
        (s.0.push('\n'), s.1)
    } else {
        s
    }
}

/// The label `pairs` gives `name`, searching from index `i`.
pub open spec fn lookup_from(pairs: Seq<(String, String)>, name: Seq<char>, i: int) -> Option<Seq<char>>
    decreases pairs.len() - i,
{
    if i < 0 || i >= pairs.len() {
        None
    } else if pairs[i].0@ == name {
        Some(pairs[i].1@)
    } else {
        lookup_from(pairs, name, i + 1)
    }
}

/// The label `pairs` gives `name`: its first pair's.
pub open spec fn lookup_spec(pairs: Seq<(String, String)>, name: Seq<char>) -> Option<Seq<char>> {
    lookup_from(pairs, name, 0)
}

pub open spec fn label_char(c: char) -> bool {
    ('a' <= c <= 'z') || ('A' <= c <= 'Z') || ('0' <= c <= '9') || c == '.' || c == '-' || c == '_'
}

/// Whether a string is usable as a Typst label without escaping.
pub open spec fn is_label_safe(s: Seq<char>) -> bool {
    s.len() > 0 && forall|k: int| 0 <= k < s.len() ==> label_char(#[trigger] s[k])
}

/// The label a link to `name` addresses: the scope's, else the run's, and
/// only if Typst can spell it.
pub open spec fn label_for(name: Seq<char>, ctx: Ctx) -> Option<Seq<char>> {
    let found = match ctx.0 {
        Some(scope) => lookup_spec(scope, name),
        None => None,
    };
    let found = match found {
        Some(l) => Some(l),
        None => lookup_spec(ctx.1, name),
    };
    match found {
        Some(l) => if is_label_safe(l) {
            Some(l)
        } else {
            None
        },
        None => None,
    }
}

/// (longest backtick run, current trailing backtick run) of `s`.
pub open spec fn backtick_run(s: Seq<char>) -> (nat, nat)
    decreases s.len(),
{
    if s.len() == 0 {
        (0, 0)
    } else {
        let (longest, current) = backtick_run(s.subrange(0, s.len() - 1));
        if s[s.len() - 1] == '`' {
            (if current + 1 > longest {
                (current + 1) as nat
            } else {
                longest
            }, (current + 1) as nat)
        } else {
            (longest, 0)
        }
    }
}

/// Inline raw text: a fence one longer than the longest backtick run inside.
pub open spec fn code_span(s: Seq<char>) -> Seq<char> {
    let ticks = repeat('`', backtick_run(s).0 + 1);
    ticks + s + ticks
}

/// `s` with each backtick preceded by a backslash.
pub open spec fn escape_backticks_spec(s: Seq<char>) -> Seq<char>
    decreases s.len(),
{
    if s.len() == 0 {
        seq![]
    } else {
        let c = s[s.len() - 1];
        escape_backticks_spec(s.subrange(0, s.len() - 1)) + if c == '`' {
            seq!['\\', '`']
        } else {
            seq![c]
        }
    }
}

/// Whether an emphasis marker next to `c` would not delimit: a word
/// character, or a slash (which with `*` makes a comment delimiter).
pub open spec fn unsafe_boundary_spec(c: Option<char>) -> bool {
    match c {
        Some(c) => alphanumeric(c) || c == '/',
        None => false,
    }
}

/// The first character an inline renders as, where that is known.
pub open spec fn leading_char_spec(inline: Inline) -> Option<char>
    decreases inline,
{
    match inline {
        Inline::Text(v) => if v@.len() > 0 {
            Some(v@[0])
        } else {
            None
        },
        Inline::Raw(v) => if v@.len() > 0 {
            Some(v@[0])
        } else {
            None
        },
        Inline::Verb(_) => Some('`'),
        Inline::Code(_) => Some('`'),
        Inline::Sexpr(_) => Some('`'),
        Inline::Emph(children) => if children@.len() > 0 {
            leading_char_spec(children@[0])
        } else {
            None
        },
        Inline::Strong(children) => if children@.len() > 0 {
            leading_char_spec(children@[0])
        } else {
            None
        },
        Inline::Math(_) => Some('#'),
        Inline::Link { .. } => Some('#'),
        Inline::Targeted { .. } => Some('#'),
        Inline::LineBreak => Some(' '),
    }
}

/// The leading character of the inline after position `i - 1`, if any.
pub open spec fn next_char(s: Seq<Inline>, i: int) -> Option<char> {
    if 0 <= i < s.len() {
        leading_char_spec(s[i])
    } else {
        None
    }
}

/// Write one inline, `next` being the first character of its successor.
pub open spec fn w_inline(st: St, inline: Inline, next: Option<char>, ctx: Ctx) -> St
    decreases inline, 3int, 0int,
{
    match inline {
        Inline::Text(v) => {
            let e = escape(v@, st.1);
            (
                st.0 + e,
                if has_non_ws(e) || e.contains('\n') {
                    e.len() > 0 && e[e.len() - 1] == '\n'
                } else {
                    st.1
                },
            )
        },
        Inline::Raw(v) => (st.0 + v@, false),
        Inline::Code(v) => (st.0 + code_span(v@), false),
        Inline::Verb(v) => (st.0 + code_span(v@), false),
        Inline::Emph(children) => w_wrap(st, '_', children@, next, ctx),
        Inline::Strong(children) => w_wrap(st, '*', children@, next, ctx),
        Inline::Math(latex) => (st.0 + "#mi(`"@ + escape_backticks_spec(latex@) + "`)"@, false),
        Inline::LineBreak => (st.0 + " \\\n"@, true),
        Inline::Sexpr(code) => (st.0 + code_span("\\Sexpr{"@ + code@ + "}"@), false),
        Inline::Targeted { target, then, otherwise } => (
            st.0 + "#context { if "@ + condition_text(target) + " ["@ + iso_inline(then@, ctx) + "]"@
                + if otherwise@.len() > 0 {
                " else ["@ + iso_inline(otherwise@, ctx) + "]"@
            } else {
                seq![]
            } + " }"@,
            false,
        ),
        Inline::Link { dest, children } => w_link(st, dest, children@, ctx),
    }
}

/// Write emphasis (`_`) or strong (`*`) content: markers where they
/// delimit, the `#emph[..]`/`#strong[..]` function form where they would not.
pub open spec fn w_wrap(st: St, marker: char, children: Seq<Inline>, next: Option<char>, ctx: Ctx) -> St
    decreases children, 2int, 0int,
{
    let inner = iso_inline(children, ctx);
    let last = if st.0.len() > 0 {
        Some(st.0[st.0.len() - 1])
    } else {
        None
    };
    if inner.len() == 0 || unsafe_boundary_spec(last) || unsafe_boundary_spec(next) || is_ws(inner[0])
        || is_ws(inner[inner.len() - 1]) || inner[0] == '/' || inner[inner.len() - 1] == '/' {
        (
            st.0 + (if marker == '*' {
                "#strong["@
            } else {
                "#emph["@
            }) + inner + seq![']'],
            false,
        )
    } else {
        (st.0 + seq![marker] + inner + seq![marker], false)
    }
}

/// Write a link.
pub open spec fn w_link(st: St, dest: LinkDest, children: Seq<Inline>, ctx: Ctx) -> St
    decreases children, 2int, 0int,
{
    let (target, fallback) = match dest {
        LinkDest::Url(u) => (string_literal(u@), u@),
        LinkDest::Email(a) => (string_literal("mailto:"@ + a@), a@),
        LinkDest::Doi(d) => (string_literal("https://doi.org/"@ + d@), "doi:"@ + d@),
        LinkDest::Topic { .. } => (seq![], seq![]),
    };
    match dest {
        LinkDest::Topic { package: Some(package), topic } => (
            st.0 + code_span(package@ + "::"@ + topic@),
            false,
        ),
        LinkDest::Topic { package: None, topic } => match label_for(topic@, ctx) {
            Some(label) => (
                st.0 + "#link(label("@ + string_literal(label) + "))["@ + code_span(topic@) + seq![']'],
                false,
            ),
            None => (st.0 + code_span(topic@), false),
        },
        _ => {
            let s1: St = (st.0 + "#link("@ + target + ")["@, false);
            let s2 = if children.len() == 0 {
                (s1.0 + code_span(fallback), false)
            } else {
                w_inlines(s1, children, children.len() as nat, ctx)
            };
            (s2.0.push(']'), false)
        },
    }
}

/// Write the first `n` inlines of `s`, each told its successor's first
/// character.
pub open spec fn w_inlines(st: St, s: Seq<Inline>, n: nat, ctx: Ctx) -> St
    decreases s, 0int, n,
{
    if n == 0 || n > s.len() {
        st
    } else {
        w_inline(w_inlines(st, s, (n - 1) as nat, ctx), s[n - 1], next_char(s, n as int), ctx)
    }
}

/// Inlines rendered on their own, from the start of a line, trimmed.
pub open spec fn iso_inline(s: Seq<Inline>, ctx: Ctx) -> Seq<char>
    decreases s, 1int, 0int,
{
    trim(w_inlines((seq![], true), s, s.len() as nat, ctx).0)
}

// -- blocks -----------------------------------------------------------------

/// Write a heading of `level` (at least one `=`), if it has content.
pub open spec fn w_heading(st: St, level: nat, content: Seq<Inline>, ctx: Ctx) -> St {
    if content.len() == 0 {
        st
    } else {
        let s = blank_line(st);
        let marks = repeat('=', if level >= 1 {
            level
        } else {
            1
        });
        let s1: St = (s.0 + marks + seq![' '], false);
        blank_line(newline(w_inlines(s1, content, content.len() as nat, ctx)))
    }
}

/// The fence of a raw block: longer than any backtick run inside, and at
/// least three backticks.
pub open spec fn block_fence(value: Seq<char>) -> Seq<char> {
    let run = backtick_run(value).0;
    repeat('`', (if run > 2 {
        run
    } else {
        2
    }) + 1)
}

/// Write a fenced code listing.
pub open spec fn w_code_block(st: St, lang: Seq<char>, value: Seq<char>) -> St {
    let s = blank_line(st);
    let fence = block_fence(value);
    let s1: St = (s.0 + fence + lang + seq!['\n'] + trim_end(value) + seq!['\n'] + fence, s.1);
    let s2 = newline(s1);
    blank_line((s2.0, true))
}

/// The language of an optional fence tag, as text.
pub open spec fn lang_text(lang: Option<String>) -> Seq<char> {
    match lang {
        Some(l) => l@,
        None => seq![],
    }
}

/// List items `0..n`, each a marker and its indented body.
pub open spec fn list_items(marker: char, items: Seq<Vec<Block>>, n: nat, ctx: Ctx) -> Seq<char>
    decreases items, 0int, n,
{
    if n == 0 || n > items.len() {
        seq![]
    } else {
        list_items(marker, items, (n - 1) as nat, ctx) + seq![marker, ' '] + indent(
            iso_blocks(items[n - 1]@, ctx),
            repeat(' ', 2),
        ) + seq!['\n']
    }
}

/// Term items `0..n`, each an explicit `terms.item`.
pub open spec fn term_items(terms: Seq<Term>, n: nat, ctx: Ctx) -> Seq<char>
    decreases terms, 0int, n,
{
    if n == 0 || n > terms.len() {
        seq![]
    } else {
        term_items(terms, (n - 1) as nat, ctx) + "  terms.item(["@ + iso_inline(terms[n - 1].term@, ctx)
            + "], ["@ + indent(iso_blocks(terms[n - 1].body@, ctx), repeat(' ', 2)) + "]),\n"@
    }
}

/// Write a block.
pub open spec fn w_block(st: St, block: Block, ctx: Ctx) -> St
    decreases block, 3int, 0int,
{
    match block {
        Block::Paragraph(children) => newline(
            w_inlines(blank_line(st), children@, children@.len() as nat, ctx),
        ),
        Block::Heading { level, content } => w_heading(
            st,
            if level < 255 {
                (level + 1) as nat
            } else {
                255
            },
            content@,
            ctx,
        ),
        Block::Code { lang, value } => w_code_block(st, lang_text(lang), value@),
        Block::List { ordered, items } => {
            let s = blank_line(st);
            let marker = if ordered {
                '+'
            } else {
                '-'
            };
            if items@.len() == 0 {
                blank_line(s)
            } else {
                blank_line((s.0 + list_items(marker, items@, items@.len() as nat, ctx), true))
            }
        },
        Block::Terms(terms) => {
            let s = blank_line(st);
            blank_line(
                (s.0 + "#terms(\n"@ + term_items(terms@, terms@.len() as nat, ctx) + ")\n"@, true),
            )
        },
        Block::Table { align, rows } => w_table(st, align@, rows@, ctx),
        Block::DisplayMath(latex) => {
            let s = blank_line(st);
            (s.0 + "#mitex(`"@ + escape_backticks_spec(latex@) + "`)\n"@, true)
        },
        Block::Group(children) => w_blocks(st, children@, children@.len() as nat, ctx),
        Block::Targeted { target, then, otherwise } => if then@.len() == 0 && otherwise@.len() == 0 {
            st
        } else {
            let s = blank_line(st);
            let text = s.0 + "#context {\n  if "@ + condition_text(target) + " ["@ + indent(
                iso_blocks(then@, ctx),
                repeat(' ', 2),
            ) + "]"@ + if otherwise@.len() > 0 {
                " else ["@ + indent(iso_blocks(otherwise@, ctx), repeat(' ', 2)) + "]"@
            } else {
                seq![]
            } + "\n}\n"@;
            blank_line((text, true))
        },
        Block::Html(html) => blank_line(newline(html_fragment(blank_line(st), html@))),
        Block::Raw(value) => {
            let s = blank_line(st);
            newline((s.0 + value@, value@.len() > 0 && value@[value@.len() - 1] == '\n'))
        },
    }
}

/// Write the first `n` blocks of `s`.
pub open spec fn w_blocks(st: St, s: Seq<Block>, n: nat, ctx: Ctx) -> St
    decreases s, 0int, n,
{
    if n == 0 || n > s.len() {
        st
    } else {
        w_block(w_blocks(st, s, (n - 1) as nat, ctx), s[n - 1], ctx)
    }
}

/// Blocks rendered on their own, trimmed.
pub open spec fn iso_blocks(s: Seq<Block>, ctx: Ctx) -> Seq<char>
    decreases s, 1int, 0int,
{
    trim(w_blocks((seq![], true), s, s.len() as nat, ctx).0)
}

/// The decimal digits of `n`.
pub open spec fn decimal(n: nat) -> Seq<char>
    decreases n,
{
    if n < 10 {
        seq![digit_char(n)]
    } else {
        decimal(n / 10).push(digit_char(n % 10))
    }
}

pub open spec fn digit_char(d: nat) -> char {
    if d == 0 {
        '0'
    } else if d == 1 {
        '1'
    } else if d == 2 {
        '2'
    } else if d == 3 {
        '3'
    } else if d == 4 {
        '4'
    } else if d == 5 {
        '5'
    } else if d == 6 {
        '6'
    } else if d == 7 {
        '7'
    } else if d == 8 {
        '8'
    } else {
        '9'
    }
}

/// The longest of the first `n` rows.
pub open spec fn max_row_len(rows: Seq<Vec<Vec<Inline>>>, n: nat) -> nat
    decreases n,
{
    if n == 0 || n > rows.len() {
        0
    } else {
        let m = max_row_len(rows, (n - 1) as nat);
        if rows[n - 1]@.len() > m {
            rows[n - 1]@.len()
        } else {
            m
        }
    }
}

pub open spec fn align_name(a: Align) -> Seq<char> {
    match a {
        Align::Left => "left"@,
        Align::Center => "center"@,
        Align::Right => "right"@,
    }
}

/// The cells of a row, each as `[content]`.
pub open spec fn row_cells(row: Seq<Vec<Inline>>, ctx: Ctx) -> Seq<Seq<char>> {
    row.map_values(|cell: Vec<Inline>| seq!['['] + iso_inline(cell@, ctx) + seq![']'])
}

/// The first `n` rows of a table, one line each.
pub open spec fn table_rows(rows: Seq<Vec<Vec<Inline>>>, n: nat, ctx: Ctx) -> Seq<char>
    decreases n,
{
    if n == 0 || n > rows.len() {
        seq![]
    } else {
        table_rows(rows, (n - 1) as nat, ctx) + "  "@ + join(row_cells(rows[n - 1]@, ctx), ", "@)
            + ",\n"@
    }
}

/// Write a `#table`: as many columns as the wider of the alignment spec and
/// the longest row.
pub open spec fn w_table(st: St, align: Seq<Align>, rows: Seq<Vec<Vec<Inline>>>, ctx: Ctx) -> St {
    let s = blank_line(st);
    let widest = max_row_len(rows, rows.len());
    let columns = if align.len() > widest {
        align.len()
    } else {
        widest
    };
    let text = s.0 + "#table(\n  columns: "@ + decimal(columns) + ",\n"@ + if align.len() > 0 {
        "  align: ("@ + join(align.map_values(|a: Align| align_name(a)), ", "@) + ",),\n"@
    } else {
        seq![]
    } + table_rows(rows, rows.len(), ctx) + ")\n"@;
    blank_line((text, true))
}

// -- the data block ---------------------------------------------------------

/// A string literal, or `none`.
pub open spec fn optional_literal(value: Option<Seq<char>>) -> Seq<char> {
    match value {
        Some(v) => string_literal(v),
        None => "none"@,
    }
}

/// A raw block literal in code position: fence, language, code, fence.
pub open spec fn raw_literal_spec(lang: Seq<char>, value: Seq<char>) -> Seq<char> {
    let fence = block_fence(value);
    fence + lang + seq!['\n'] + trim_end(value) + seq!['\n'] + fence
}

pub open spec fn bool_text(b: bool) -> Seq<char> {
    if b {
        "true"@
    } else {
        "false"@
    }
}

/// The first `n` entries of an examples array.
pub open spec fn example_items(lang: Seq<char>, examples: Seq<Example>, n: nat) -> Seq<char>
    decreases n,
{
    if n == 0 || n > examples.len() {
        seq![]
    } else {
        example_items(lang, examples, (n - 1) as nat) + "  (run: "@ + bool_text(examples[n - 1].run)
            + ", code: "@ + raw_literal_spec(lang, examples[n - 1].code@) + "),\n"@
    }
}

/// The `doc-examples` array.
pub open spec fn examples_array_spec(lang: Seq<char>, examples: Seq<Example>) -> Seq<char> {
    if examples.len() == 0 {
        "()"@
    } else {
        "(\n"@ + example_items(lang, examples, examples.len()) + seq![')']
    }
}

pub open spec fn optional_view(value: Option<String>) -> Option<Seq<char>> {
    match value {
        Some(v) => Some(v@),
        None => None,
    }
}

/// The first `n` entries of a parameters array.
pub open spec fn params_items(params: Seq<Param>, n: nat, ctx: Ctx) -> Seq<char>
    decreases n,
{
    if n == 0 || n > params.len() {
        seq![]
    } else {
        let p = params[n - 1];
        params_items(params, (n - 1) as nat, ctx) + "  (names: "@ + string_array(p.names@) + ", type: "@
            + optional_literal(optional_view(p.ty)) + ", default: "@ + optional_literal(
            optional_view(p.default),
        ) + ", optional: "@ + bool_text(p.optional) + ", body: ["@ + indent(
            iso_blocks(p.body@, ctx),
            repeat(' ', 4),
        ) + "]),\n"@
    }
}

/// A `doc-params` or `doc-raises` array.
pub open spec fn params_array(params: Seq<Param>, ctx: Ctx) -> Seq<char> {
    if params.len() == 0 {
        "()"@
    } else {
        "(\n"@ + params_items(params, params.len(), ctx) + seq![')']
    }
}

/// One prose section entry, absent when the section is empty.
pub open spec fn prose_entry(id: Seq<char>, title: Seq<char>, body: Seq<Block>, ctx: Ctx) -> Seq<char> {
    if body.len() == 0 {
        seq![]
    } else {
        "  (id: \""@ + id + "\", title: ["@ + title + "], kind: \"prose\", body: [\n"@ + iso_blocks(
            body,
            ctx,
        ) + "\n  ]),\n"@
    }
}

/// The first `n` custom sections, as entries.
pub open spec fn custom_sections(sections: Seq<crate::ir::Section>, n: nat, ctx: Ctx) -> Seq<char>
    decreases n,
{
    if n == 0 || n > sections.len() {
        seq![]
    } else {
        custom_sections(sections, (n - 1) as nat, ctx) + "  (id: \"custom\", title: ["@ + iso_inline(
            sections[n - 1].title@,
            ctx,
        ) + "], kind: \"prose\", body: [\n== "@ + iso_inline(sections[n - 1].title@, ctx) + "\n\n"@
            + iso_blocks(sections[n - 1].body@, ctx) + "\n  ]),\n"@
    }
}

/// Every section entry of a topic, in the fixed order the template reads.
pub open spec fn section_entries(topic: Topic, ctx: Ctx) -> Seq<char> {
    prose_entry("description"@, "Description"@, topic.description@, ctx) + if topic.params@.len() > 0 {
        "  (id: \"arguments\", title: [Arguments], kind: \"params\", items: doc-params),\n"@
    } else {
        seq![]
    } + prose_entry("details"@, "Details"@, topic.details@, ctx) + prose_entry(
        "value"@,
        "Value"@,
        topic.value@,
        ctx,
    ) + if topic.raises@.len() > 0 {
        "  (id: \"raises\", title: [Raises], kind: \"params\", items: doc-raises),\n"@
    } else {
        seq![]
    } + custom_sections(topic.sections@, topic.sections@.len(), ctx) + prose_entry(
        "note"@,
        "Note"@,
        topic.note@,
        ctx,
    ) + if topic.examples@.len() > 0 {
        "  (id: \"examples\", title: [Examples], kind: \"examples\", items: doc-examples),\n"@
    } else {
        seq![]
    } + prose_entry("seealso"@, "See Also"@, topic.seealso@, ctx) + prose_entry(
        "references"@,
        "References"@,
        topic.references@,
        ctx,
    ) + prose_entry("author"@, "Author"@, topic.author@, ctx)
}

/// The `doc-sections` array.
pub open spec fn sections_array(topic: Topic, ctx: Ctx) -> Seq<char> {
    let entries = section_entries(topic, ctx);
    if entries.len() == 0 {
        "()"@
    } else {
        "(\n"@ + entries + seq![')']
    }
}

/// The data block: one `#let doc-...` line per variable, each emitted for
/// every topic, in a fixed order.
pub open spec fn data_block(topic: Topic, entry: Entry, options: Options) -> Seq<char> {
    let ctx = super::ctx_of(entry, options);
    let label = match entry.label {
        Some(l) => l@,
        None => topic.name@,
    };
    "#let doc-name = "@ + string_literal(topic.name@) + "\n#let doc-label = "@ + (if is_label_safe(
        label,
    ) {
        seq!['<'] + label + seq!['>']
    } else {
        "none"@
    }) + "\n#let doc-title = ["@ + iso_inline(topic.title@, ctx) + "]\n#let doc-aliases = "@
        + string_array(topic.aliases@) + "\n#let doc-source = "@ + (match entry.source {
        Some(s) => seq!['['] + code_span(s@) + seq![']'],
        None => "none"@,
    }) + "\n#let doc-signature = "@ + (match topic.signature {
        Some(sig) => raw_literal_spec(lang_text(topic.lang), sig@),
        None => "none"@,
    }) + data_block_lines(topic, options, ctx)
}

/// The data block's lines after the signature.
pub open spec fn data_block_lines(topic: Topic, options: Options, ctx: Ctx) -> Seq<char> {
    "\n#let doc-params = "@ + params_array(topic.params@, ctx) + "\n#let doc-raises = "@ + params_array(
        topic.raises@,
        ctx,
    ) + "\n#let doc-params-format = "@ + (match options.params_format {
        ParamsFormat::Table => "\"table\""@,
        ParamsFormat::Terms => "\"terms\""@,
    }) + "\n#let doc-examples = "@ + examples_array_spec(lang_text(topic.lang), topic.examples@)
        + "\n#let doc-sections = "@ + sections_array(topic, ctx) + seq!['\n']
}

/// Whether an inline is, or contains, math.
pub open spec fn inline_math(inline: Inline) -> bool
    decreases inline,
{
    match inline {
        Inline::Math(_) => true,
        Inline::Emph(children) => inlines_math(children@),
        Inline::Strong(children) => inlines_math(children@),
        Inline::Link { children, .. } => inlines_math(children@),
        Inline::Targeted { then, otherwise, .. } => inlines_math(then@) || inlines_math(otherwise@),
        _ => false,
    }
}

pub open spec fn inlines_math(s: Seq<Inline>) -> bool
    decreases s,
{
    exists|k: int| 0 <= k < s.len() && inline_math(#[trigger] s[k])
}

pub open spec fn row_math(row: Seq<Vec<Inline>>) -> bool {
    exists|k: int| 0 <= k < row.len() && inlines_math(#[trigger] row[k]@)
}

pub open spec fn term_math(t: Term) -> bool
    decreases t,
{
    inlines_math(t.term@) || blocks_math(t.body@)
}

/// Whether a block is, or contains, math.
pub open spec fn block_math(block: Block) -> bool
    decreases block,
{
    match block {
        Block::DisplayMath(_) => true,
        Block::Paragraph(children) => inlines_math(children@),
        Block::Heading { content, .. } => inlines_math(content@),
        Block::List { items, .. } => exists|k: int| 0 <= k < items@.len() && blocks_math(#[trigger] items@[k]@),
        Block::Terms(terms) => exists|k: int| 0 <= k < terms@.len() && term_math(#[trigger] terms@[k]),
        Block::Table { rows, .. } => exists|k: int| 0 <= k < rows@.len() && row_math(#[trigger] rows@[k]@),
        Block::Group(children) => blocks_math(children@),
        Block::Targeted { then, otherwise, .. } => blocks_math(then@) || blocks_math(otherwise@),
        _ => false,
    }
}

pub open spec fn blocks_math(s: Seq<Block>) -> bool
    decreases s,
{
    exists|k: int| 0 <= k < s.len() && block_math(#[trigger] s[k])
}

/// Whether anything a topic renders holds math.
pub open spec fn topic_math(topic: Topic) -> bool {
    ||| blocks_math(topic.description@)
    ||| blocks_math(topic.details@)
    ||| blocks_math(topic.value@)
    ||| blocks_math(topic.seealso@)
    ||| blocks_math(topic.references@)
    ||| blocks_math(topic.note@)
    ||| blocks_math(topic.author@)
    ||| (exists|k: int| 0 <= k < topic.params@.len() && blocks_math(#[trigger] topic.params@[k].body@))
    ||| (exists|k: int| 0 <= k < topic.raises@.len() && blocks_math(#[trigger] topic.raises@[k].body@))
    ||| (exists|k: int| 0 <= k < topic.sections@.len() && blocks_math(#[trigger] topic.sections@[k].body@))
    ||| (exists|k: int| 0 <= k < topic.sections@.len() && inlines_math(#[trigger] topic.sections@[k].title@))
    ||| inlines_math(topic.title@)
}

/// The whole generated document: the MiTeX import when math is present,
/// then the data block, a newline, and the template.
pub open spec fn document(topic: Topic, entry: Entry, options: Options) -> Seq<char> {
    let body = data_block(topic, entry, options) + seq!['\n'] + super::template_text(options);
    if topic_math(topic) {
        "#import \"@preview/mitex:0.2.7\": mi, mitex\n\n"@ + body
    } else {
        body
    }
}

} // verus!
