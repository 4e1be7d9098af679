//! Pass 1 of the man(7) reader: roff lines to sections of blocks.
//!
//! Two roff facts shape the line loop:
//!
//! - Font state persists across lines, so `\fB` on one line bolds the next
//!   one too, until `\fR` or `\fP`. It is a parser field, not a local.
//! - `.TP` puts the *tag* on the following line, whatever that line happens
//!   to be: text, `.B`, or `.BR`. The tag is therefore captured by a pending
//!   flag rather than read from the macro's own arguments.

use vstd::prelude::*;

use crate::ir::{Block, Inline, LinkDest};
use crate::man::roff::{alternating, bullet, decode, is, plain, plain_string, Font, Line};
use crate::man::sink::{append, trim_inlines, Sink};
use crate::man::roff::views;
use crate::text::{char_views, chars_of, has_non_ws, has_non_ws_exec, join, join_exec, lines_of, push_chars, slice_chars, string_of, trim_end_chars};

verus! {

/// One `.SH` section, with its prose already converted.
pub struct RawSection {
    pub title: Vec<char>,
    pub blocks: Vec<Block>,
    /// The section as printed text, line by line: what NAME and SYNOPSIS are
    /// read from. A synopsis is a code listing, and reflowing it into
    /// paragraphs would destroy the line structure that is its whole content.
    pub lines: Vec<Vec<char>>,
}

/// The `.TH` header: `.TH name section date source manual`.
pub struct Header {
    pub name: Vec<char>,
    pub section: Vec<char>,
}

/// The sections of a page, before they are routed to a topic's fields.
pub struct Document {
    pub header: Option<Header>,
    pub sections: Vec<RawSection>,
}

/// Which request closes a verbatim run.
#[derive(Clone, Copy)]
pub enum VerbatimEnd {
    /// `.nf` ... `.fi`: lines not filled.
    Fi,
    /// `.EX` ... `.EE`: an example.
    Ee,
    /// `.TS` ... `.TE`: a table.
    Te,
}

/// A run of lines held verbatim rather than filled into paragraphs.
pub struct Verbatim {
    pub lines: Vec<Vec<char>>,
    pub end: VerbatimEnd,
}

pub struct Parser {
    pub header: Option<Header>,
    pub sections: Vec<RawSection>,
    pub current: RawSection,
    pub sink: Sink,
    pub font: Font,
    /// Set by a bare `.B`/`.I`, which fonts the following line.
    pub next_font: Option<Font>,
    /// `.TP` and tagged `.IP` take their tag from the next line.
    pub awaiting_tag: bool,
    pub verbatim: Option<Verbatim>,
    /// Open `.UR`/`.MT` link: inline content routes into it until `.UE`/`.ME`.
    pub link: Option<(LinkDest, Vec<Inline>)>,
    /// `\c` at the end of a line suppresses the space that would otherwise
    /// join it to the next one.
    pub joined: bool,
    /// Whether the next line of section text starts a new line rather than
    /// continuing the current one, as roff's filling would.
    pub break_line: bool,
}

fn empty_section() -> (r: RawSection)
    ensures
        r.title@.len() == 0,
        r.blocks@.len() == 0,
        r.lines@.len() == 0,
{
    RawSection { title: Vec::new(), blocks: Vec::new(), lines: Vec::new() }
}

/// The requests that emit inline content, and so continue a line of
/// section text rather than ending it.
pub open spec fn inline_request(name: Seq<char>) -> bool {
    font_request(name) || name == "UR"@ || name == "UE"@ || name == "MT"@ || name == "ME"@ || name
        == "MR"@ || name == "OP"@
}

/// The font requests: `.B`, `.I` and the alternating pairs.
pub open spec fn font_request(name: Seq<char>) -> bool {
    name == "B"@ || name == "I"@ || name == "R"@ || name == "SM"@ || name == "SB"@ || name == "BR"@
        || name == "RB"@ || name == "BI"@ || name == "IB"@ || name == "IR"@ || name == "RI"@
}

/// The line a section's printed text gets from a line's inline content:
/// the current line continued, with a space unless the previous line was
/// joined, or a new line after a break.
pub open spec fn section_lines(lines: Seq<Seq<char>>, text: Seq<char>, break_line: bool, joined: bool) -> Seq<Seq<char>> {
    if lines.len() > 0 && !break_line {
        lines.drop_last().push(
            lines.last() + (if joined {
                seq![]
            } else {
                seq![' ']
            }) + text,
        )
    } else {
        lines.push(text)
    }
}

/// Whether `a` and `b` agree on everything a line of inline content can
/// change: all but the section's printed lines, the break flag, the
/// pending tag, the open link, the join flag and the sink.
pub open spec fn emit_kept(a: Parser, b: Parser) -> bool {
    &&& a.header == b.header
    &&& a.sections == b.sections
    &&& a.current.title == b.current.title
    &&& a.current.blocks == b.current.blocks
    &&& a.font == b.font
    &&& a.next_font == b.next_font
    &&& a.verbatim == b.verbatim
}

/// The request that closes a verbatim run.
pub open spec fn end_name(end: VerbatimEnd) -> Seq<char> {
    match end {
        VerbatimEnd::Fi => "fi"@,
        VerbatimEnd::Ee => "EE"@,
        VerbatimEnd::Te => "TE"@,
    }
}

/// The requests that stand for a blank line inside a verbatim run.
pub open spec fn spacing_request(name: Seq<char>) -> bool {
    name == "PP"@ || name == "P"@ || name == "LP"@ || name == "sp"@ || name == "br"@
}

/// The lines a request adds to a verbatim run: an empty one for a spacing
/// request, the printed text of a font request, nothing for any other.
pub open spec fn verbatim_extra(name: Seq<char>, args: Seq<Seq<char>>) -> Seq<Seq<char>> {
    if spacing_request(name) {
        seq![seq![]]
    } else if font_request(name) {
        seq![crate::man::roff::runs_text(crate::man::roff::alt_runs(name, args, args.len() as int))]
    } else {
        seq![]
    }
}

/// Argument `i`, or nothing.
pub open spec fn arg_or_empty(args: Seq<Seq<char>>, i: int) -> Seq<char> {
    if 0 <= i < args.len() {
        args[i]
    } else {
        seq![]
    }
}

/// The font a bare font request sets for the following line.
pub open spec fn bare_font(name: Seq<char>) -> Font {
    if name == "I"@ || name == "IR"@ || name == "IB"@ {
        Font::Italic
    } else if name == "R"@ {
        Font::Roman
    } else {
        Font::Bold
    }
}

/// Whether `b` is `a` after a line's inline content `ins` was routed, the
/// line ending joined to the next where `joined`.
pub open spec fn emitted(a: Parser, b: Parser, ins: Seq<Inline>, joined: bool) -> bool {
    &&& emit_kept(a, b)
    &&& ins.len() == 0 ==> b == a
    &&& ins.len() > 0 ==> {
        let text = crate::ir::inline::plain_text(ins);
        &&& a.current.title@.len() > 0 ==> char_views(b.current.lines@)
            == section_lines(char_views(a.current.lines@), text, a.break_line, a.joined)
            && !b.break_line
        &&& a.current.title@.len() == 0 ==> b.current.lines == a.current.lines
            && b.break_line == a.break_line
        &&& if a.awaiting_tag {
            &&& !b.awaiting_tag
            &&& exists|t: Seq<Inline>|
                crate::man::sink::trimmed(t, ins) && #[trigger] crate::man::sink::term_started(a.sink, t, b.sink)
            &&& !b.joined
            &&& b.link == a.link
        } else {
            &&& !b.awaiting_tag
            &&& b.joined == joined
            &&& match a.link {
                Some((dest, children)) => b.link matches Some((d, c)) && d == dest
                    && crate::man::sink::appended(children@, ins, children@.len() > 0 && !a.joined, c@)
                    && b.sink == a.sink,
                None => b.link is None && b.sink.below == a.sink.below
                    && b.sink.top.kind == a.sink.top.kind
                    && b.sink.top.blocks == a.sink.top.blocks
                    && crate::man::sink::appended(
                        a.sink.top.para@,
                        ins,
                        a.sink.top.para@.len() > 0 && !a.joined,
                        b.sink.top.para@,
                    ),
            }
        }
    }
}

/// Whether `b` is `a` once a verbatim run of `lines` was closed: a run
/// with only whitespace leaves nothing; any other becomes a code block, a
/// shell example for `.EX`, and its lines join the section's printed text.
pub open spec fn code_pushed(a: Parser, b: Parser, lines: Seq<Seq<char>>, example: bool) -> bool {
    let value = join(lines, "\n"@);
    &&& !has_non_ws(value) ==> b == a
    &&& has_non_ws(value) ==> {
        &&& char_views(b.current.lines@) == char_views(a.current.lines@) + lines
        &&& b.break_line
        &&& b.sink.top.para@.len() == 0
        &&& b.sink.top.blocks@.len() > 0
        &&& exists|m: Sink|
            #[trigger] crate::man::sink::closed_while(a.sink, true, true, m) && b.sink.below == m.below
                && b.sink.top.kind == m.top.kind && b.sink.top.blocks@.drop_last() == m.top.blocks@
        &&& b.sink.top.blocks@.last() matches Block::Code { lang, value: v } && v@ == strip_newlines(value)
            && (if example {
            lang matches Some(l) && l@ == "sh"@
        } else {
            lang is None
        })
        &&& b.header == a.header
        &&& b.sections == a.sections
        &&& b.current.title == a.current.title
        &&& b.font == a.font
        &&& b.next_font == a.next_font
        &&& b.awaiting_tag == a.awaiting_tag
        &&& b.verbatim == a.verbatim
        &&& b.link == a.link
        &&& b.joined == a.joined
    }
}

/// Whether `b` is `a` once the section being read was closed: kept, with
/// its title and printed lines, unless it has neither a title nor any
/// block, and a fresh one begun.
pub open spec fn section_closed(a: Parser, b: Parser) -> bool {
    &&& b.header == a.header
    &&& b.sections@.len() <= a.sections@.len() + 1
    &&& b.sections@.subrange(0, a.sections@.len() as int) == a.sections@
    &&& b.sections@.len() == a.sections@.len() + 1 ==> b.sections@.last().title == a.current.title
        && b.sections@.last().lines == a.current.lines
    &&& exists|bl: Seq<Block>|
        #[trigger] crate::man::sink::finishes(a.sink.below@, a.sink.top, bl) && ((a.current.title@.len() > 0
            || bl.len() > 0) <==> b.sections@.len() == a.sections@.len() + 1) && (b.sections@.len()
            == a.sections@.len() + 1 ==> b.sections@.last().blocks@ == bl)
    &&& b.current.lines@.len() == 0
    &&& b.current.blocks@.len() == 0
    &&& b.sink.below@.len() == 0
    &&& b.sink.top.kind is Root
    &&& b.sink.top.blocks@.len() == 0
    &&& b.sink.top.para@.len() == 0
    &&& b.next_font == a.next_font
    &&& b.awaiting_tag == a.awaiting_tag
    &&& b.verbatim == a.verbatim
    &&& b.link == a.link
    &&& b.joined == a.joined
}

/// Each argument as printed text.
pub open spec fn plains(args: Seq<Seq<char>>) -> Seq<Seq<char>> {
    args.map_values(|a: Seq<char>| crate::man::roff::plain_spec(a))
}

/// The printed text of argument `i`, or nothing.
pub open spec fn plain_arg(args: Seq<Seq<char>>, i: int) -> Seq<char> {
    if 0 <= i < args.len() {
        crate::man::roff::plain_spec(args[i])
    } else {
        seq![]
    }
}

/// Whether `b` is `a` with the paragraph ended and any open list closed.
pub open spec fn para_broken(a: Parser, b: Parser) -> bool {
    &&& crate::man::sink::closed_while(a.sink, true, true, b.sink)
    &&& b.sink.top.para@.len() == 0
}

/// The inline content of `.MR page section punct`: a link to the page,
/// the section in parentheses, then the punctuation.
pub open spec fn mr_inlines(ins: Seq<Inline>, args: Seq<Seq<char>>) -> bool {
    let n = 1 + (if args.len() > 1 {
        1int
    } else {
        0
    }) + (if args.len() > 2 {
        1int
    } else {
        0
    });
    &&& ins.len() == n
    &&& ins[0] matches Inline::Link { dest: LinkDest::Topic { package: None, topic }, children } && topic@
        == arg_or_empty(args, 0) && children@.len() == 0
    &&& args.len() > 1 ==> crate::man::roff::is_text(ins[1], "("@ + args[1] + ")"@)
    &&& args.len() > 2 ==> crate::man::roff::is_text(ins[2], crate::man::roff::plain_spec(args[2]))
}

/// Whether `b` is `a` after `.MR` with `args` emitted its content.
pub open spec fn mr_emitted(a: Parser, b: Parser, args: Seq<Seq<char>>) -> bool {
    exists|ins: Seq<Inline>| mr_inlines(ins, args) && #[trigger] emitted(a, b, ins, false)
}

/// Whether `b` is `a` after `.SY` with `args` emitted its content.
pub open spec fn sy_emitted(a: Parser, b: Parser, args: Seq<Seq<char>>) -> bool {
    exists|ins: Seq<Inline>|
        ins.len() == 1 && (ins[0] matches Inline::Strong(v) && v@.len() == 1 && crate::man::roff::is_text(
            v@[0],
            plain_arg(args, 0),
        )) && #[trigger] emitted(a, b, ins, false)
}

/// Whether `b` is `a` after `.OP` with `args` emitted its content.
pub open spec fn op_emitted(a: Parser, b: Parser, args: Seq<Seq<char>>) -> bool {
    exists|ins: Seq<Inline>|
        ins.len() == 1 && crate::man::roff::is_text(ins[0], "["@ + join(plains(args), " "@) + "]"@)
            && #[trigger] emitted(a, b, ins, false)
}

/// Whether `b` is `a` after a font request with `args` emitted its content.
pub open spec fn font_emitted(a: Parser, b: Parser, name: Seq<char>, args: Seq<Seq<char>>) -> bool {
    exists|ins: Seq<Inline>|
        crate::man::roff::wraps_all(ins, crate::man::roff::alt_runs(name, args, args.len() as int))
            && #[trigger] emitted(a, b, ins, false)
}

/// Whether `b` is `a` once an open link was closed, its text trimmed, and
/// emitted as one inline, the line ending joined to what follows where
/// `args` hold punctuation; with no link open, nothing changes.
pub open spec fn link_closed(a: Parser, b: Parser, args: Seq<Seq<char>>) -> bool {
    let punctuated = args.len() > 0;
    match a.link {
        Some((d, c)) => exists|ins: Seq<Inline>|
            ins.len() == 1 && (ins[0] matches Inline::Link { dest, children } && dest == d
                && crate::man::sink::trimmed(children@, c@)) && #[trigger] emitted(
                Parser { link: None, ..a },
                b,
                ins,
                punctuated,
            ),
        None => b == a,
    }
}

/// Whether `b` is `a` after `.UE` or `.ME` with `args`: the open link
/// emitted, then the punctuation of the first argument, if any, as text.
pub open spec fn ue_emitted(a: Parser, b: Parser, args: Seq<Seq<char>>) -> bool {
    exists|mid: Parser|
        #[trigger] link_closed(a, mid, args) && if args.len() > 0 {
            exists|ins: Seq<Inline>|
                ins.len() == 1 && crate::man::roff::is_text(ins[0], crate::man::roff::plain_spec(args[0]))
                    && #[trigger] emitted(mid, b, ins, false)
        } else {
            b == mid
        }
}

/// What a request outside a verbatim run does to the parser state `a`,
/// giving `b`. Every request but those that emit inline content ends the
/// line of section text being read.
pub open spec fn request_effect(a: Parser, b: Parser, name: Seq<char>, args: Seq<Seq<char>>) -> bool {
    let broken = Parser { break_line: a.break_line || !inline_request(name), ..a };
    &&& name != "TH"@ ==> b.header == a.header
    &&& name != "SH"@ ==> b.sections == a.sections && b.current.title == a.current.title && b.font == a.font
    &&& !inline_request(name) && name != "SY"@ ==> b.break_line
    &&& if name == "TH"@ {
        &&& b.header matches Some(h) && h.name@ == plain_arg(args, 0) && h.section@ == plain_arg(args, 1)
        &&& b == Parser { header: b.header, ..broken }
    } else if name == "SH"@ {
        &&& section_closed(broken, b)
        &&& b.current.title@ == crate::man::roff::plain_spec(join(args, " "@))
        &&& b.font == Font::Roman
    } else if name == "SS"@ {
        &&& b == Parser { sink: b.sink, ..broken }
        &&& b.sink.top.para@.len() == 0
        &&& b.sink.top.blocks@.len() > 0
        &&& exists|m: Sink|
            #[trigger] crate::man::sink::closed_while(a.sink, true, true, m) && b.sink.below == m.below
                && b.sink.top.kind == m.top.kind && b.sink.top.blocks@.drop_last() == m.top.blocks@
        &&& b.sink.top.blocks@.last() matches Block::Heading { level, content } && level == 2
            && crate::man::roff::wraps_all(content@, crate::man::roff::decode_spec(join(args, " "@), Font::Roman).0)
    } else if name == "PP"@ || name == "P"@ || name == "LP"@ || name == "HP"@ || name == "sp"@ || name == "Pp"@ {
        &&& b == Parser { sink: b.sink, ..broken }
        &&& para_broken(a, b)
    } else if name == "br"@ {
        if a.sink.top.para@.len() > 0 {
            b.sink.top.para@ == a.sink.top.para@.push(Inline::LineBreak) && b.joined
        } else {
            b.sink == a.sink && b.joined == a.joined
        }
    } else if name == "TP"@ || name == "TQ"@ {
        &&& b == Parser { sink: b.sink, awaiting_tag: true, ..broken }
        &&& b.awaiting_tag
        &&& b.sink.top.para@.len() == 0
        &&& b.sink.below == a.sink.below
        &&& b.sink.top.kind == a.sink.top.kind
        &&& crate::man::sink::flushed(a.sink.top, b.sink.top.blocks@)
    } else if name == "IP"@ {
        &&& b == Parser { sink: b.sink, ..broken }
        &&& if args.len() == 0 {
            para_broken(a, b)
        } else {
            match crate::man::roff::bullet_spec(args[0]) {
                Some(ordered) => crate::man::sink::item_started(a.sink, ordered, b.sink),
                None => exists|ins: Seq<Inline>, t: Seq<Inline>|
                    crate::man::roff::wraps_all(ins, crate::man::roff::decode_spec(args[0], Font::Roman).0)
                        && #[trigger] crate::man::sink::trimmed(t, ins) && #[trigger] crate::man::sink::term_started(
                        a.sink,
                        t,
                        b.sink,
                    ),
            }
        }
    } else if name == "RS"@ {
        &&& b == Parser { sink: b.sink, ..broken }
        &&& b.sink.top.kind is Indent
        &&& b.sink.top.blocks@.len() == 0
        &&& b.sink.top.para@.len() == 0
        &&& b.sink.below@.len() == a.sink.below@.len() + 1
        &&& b.sink.below@.drop_last() == a.sink.below@
        &&& b.sink.below@.last().kind == a.sink.top.kind
        &&& b.sink.below@.last().para@.len() == 0
        &&& crate::man::sink::flushed(a.sink.top, b.sink.below@.last().blocks@)
    } else if name == "RE"@ {
        &&& b == Parser { sink: b.sink, ..broken }
        &&& crate::man::sink::closed_times(
            a.sink.below@,
            a.sink.top,
            (a.sink.below@.len() - b.sink.below@.len()) as nat,
            b.sink,
        )
        &&& b.sink.below@.len() == match crate::man::sink::last_indent(a.sink, a.sink.below@.len() as int) {
            Some(i) => i - 1,
            None => 0,
        }
    } else if name == "nf"@ {
        b.verbatim matches Some(v) && v.lines@.len() == 0 && v.end == VerbatimEnd::Fi && b == Parser {
            verbatim: b.verbatim,
            ..broken
        }
    } else if name == "EX"@ {
        b.verbatim matches Some(v) && v.lines@.len() == 0 && v.end == VerbatimEnd::Ee && b == Parser {
            verbatim: b.verbatim,
            ..broken
        }
    } else if name == "TS"@ {
        b.verbatim matches Some(v) && v.lines@.len() == 0 && v.end == VerbatimEnd::Te && b == Parser {
            verbatim: b.verbatim,
            ..broken
        }
    } else if font_request(name) {
        if args.len() == 0 {
            b == Parser { next_font: Some(bare_font(name)), ..a }
        } else {
            font_emitted(a, b, name, args)
        }
    } else if name == "UR"@ || name == "MT"@ {
        &&& b.link matches Some((d, c)) && c@.len() == 0 && (if name == "UR"@ {
            d matches LinkDest::Url(t) && t@ == arg_or_empty(args, 0)
        } else {
            d matches LinkDest::Email(t) && t@ == arg_or_empty(args, 0)
        })
        &&& b == Parser { link: b.link, ..a }
    } else if name == "UE"@ || name == "ME"@ {
        ue_emitted(a, b, args)
    } else if name == "MR"@ {
        mr_emitted(a, b, args)
    } else if name == "SY"@ {
        sy_emitted(broken, b, args)
    } else if name == "OP"@ {
        op_emitted(a, b, args)
    } else if name == "YS"@ {
        &&& b == Parser { sink: b.sink, ..broken }
        &&& para_broken(a, b)
    } else {
        b == broken
    }
}

/// What reading the text line `text` does to the parser state `a`,
/// giving `b`.
pub open spec fn text_effect(a: Parser, b: Parser, text: Seq<char>) -> bool {
    match a.verbatim {
        Some(v) => b.verbatim matches Some(w) && w.end == v.end && w.lines@.len() == v.lines@.len() + 1
            && w.lines@.drop_last() == v.lines@ && w.lines@.last()@ == crate::man::roff::plain_spec(text)
            && b.header == a.header && b.sections == a.sections
            && b.font == a.font,
        None => {
            let font = match a.next_font {
                Some(f) => f,
                None => a.font,
            };
            let d = crate::man::roff::decode_spec(text, font);
            &&& b.font == d.1
            &&& b.next_font is None
            &&& b.header == a.header
            &&& b.sections == a.sections
            &&& b.verbatim is None
            &&& text_emitted(Parser { font: d.1, next_font: None, ..a }, b, d.0, d.2)
        },
    }
}

/// Whether `b` is `a` after a line decoded into `runs` was emitted.
pub open spec fn text_emitted(a: Parser, b: Parser, runs: Seq<crate::man::roff::Run>, joined: bool) -> bool {
    exists|ins: Seq<Inline>| crate::man::roff::wraps_all(ins, runs) && #[trigger] emitted(a, b, ins, joined)
}

/// What the request line `name` with `args` does to the parser state
/// `a`, giving `b`: inside a verbatim run, the closing request ends it and
/// any other adds its lines; outside, the request's own effect.
pub open spec fn macro_effect(a: Parser, b: Parser, name: Seq<char>, args: Seq<Seq<char>>) -> bool {
    match a.verbatim {
        Some(v) => if name == end_name(v.end) {
            code_pushed(
                Parser { verbatim: None, ..a },
                b,
                char_views(v.lines@),
                v.end == VerbatimEnd::Ee,
            )
        } else {
            &&& b.verbatim matches Some(w) && w.end == v.end && char_views(w.lines@)
                == char_views(v.lines@) + verbatim_extra(name, args)
            &&& b == Parser { verbatim: b.verbatim, ..a }
        },
        None => request_effect(a, b, name, args),
    }
}

/// The requests that define or ignore a block of text: `.de`, `.de1`,
/// `.am`, `.ig`.
pub open spec fn definition_request(name: Seq<char>) -> bool {
    name == "de"@ || name == "de1"@ || name == "am"@ || name == "ig"@
}

/// Whether a line ends a definition's body: `..`, alone or before a space.
pub open spec fn ends_definition(line: Seq<char>) -> bool {
    crate::text::trim_end(line) == ".."@ || crate::text::starts_with(line, ".. "@)
}

/// Where the lines after a definition's body, starting at `j`, begin.
pub open spec fn body_end(lines: Seq<Seq<char>>, j: int) -> int
    decreases lines.len() - j,
{
    if j < 0 || j >= lines.len() {
        lines.len() as int
    } else if ends_definition(lines[j]) {
        j + 1
    } else {
        body_end(lines, j + 1)
    }
}

/// Where the next line the reader acts on stands after the one at `p`: past
/// the body of a definition, the following one otherwise.
pub open spec fn next_line(lines: Seq<Seq<char>>, p: int) -> int {
    let c = crate::man::roff::strip_comment_spec(lines[p]);
    if crate::man::roff::is_control(c) && definition_request(crate::man::roff::request_name(c)) {
        body_end(lines, p + 1)
    } else {
        p + 1
    }
}

/// What one line does to the parser state `a`, giving `b`: a request its
/// effect (a definition nothing, its body being skipped), a line of text
/// its effect, and a blank line that of `.PP`.
pub open spec fn line_effect(a: Parser, b: Parser, line: Seq<char>) -> bool {
    let c = crate::man::roff::strip_comment_spec(line);
    if crate::man::roff::is_control(c) {
        if definition_request(crate::man::roff::request_name(c)) {
            b == a
        } else {
            macro_effect(a, b, crate::man::roff::request_name(c), crate::man::roff::request_args(c))
        }
    } else if has_non_ws(c) {
        text_effect(a, b, c)
    } else {
        macro_effect(a, b, "PP"@, seq![])
    }
}

/// Whether `trace` are the parser states reading `lines` from `start`
/// passes through, `at` where each line read stands.
pub open spec fn read_trace(start: Parser, lines: Seq<Seq<char>>, trace: Seq<Parser>, at: Seq<int>) -> bool {
    &&& trace.len() == at.len()
    &&& trace.len() > 0
    &&& trace[0] == start
    &&& at[0] == 0
    &&& at.last() >= lines.len()
    &&& forall|k: int|
        0 <= k < at.len() - 1 ==> 0 <= #[trigger] at[k] < lines.len() && at[k + 1] == next_line(lines, at[k])
            && line_effect(trace[k], trace[k + 1], lines[at[k]])
}

/// Whether reading `lines` from `start` passes through `trace` and, the
/// last section closed, ends in `end`.
pub open spec fn reads(start: Parser, lines: Seq<Seq<char>>, trace: Seq<Parser>, at: Seq<int>, end: Parser) -> bool {
    read_trace(start, lines, trace, at) && section_closed(trace.last(), end)
}

/// Whether `p` is a parser about to read a page: nothing read, roman font,
/// and the first line of text starting a line of its own.
pub open spec fn fresh(p: Parser) -> bool {
    &&& p.wf()
    &&& p.header is None
    &&& p.sections@.len() == 0
    &&& p.current.title@.len() == 0
    &&& p.current.blocks@.len() == 0
    &&& p.current.lines@.len() == 0
    &&& p.sink.below@.len() == 0
    &&& p.sink.top.kind is Root
    &&& p.sink.top.blocks@.len() == 0
    &&& p.sink.top.para@.len() == 0
    &&& p.font == Font::Roman
    &&& p.next_font is None
    &&& !p.awaiting_tag
    &&& p.verbatim is None
    &&& p.link is None
    &&& !p.joined
    &&& p.break_line
}

fn is_font_request(name: &Vec<char>) -> (r: bool)
    ensures
        r == font_request(name@),
{
    is(name, "B") || is(name, "I") || is(name, "R") || is(name, "SM") || is(name, "SB") || is(
        name,
        "BR",
    ) || is(name, "RB") || is(name, "BI") || is(name, "IB") || is(name, "IR") || is(name, "RI")
}

fn is_inline_request(name: &Vec<char>) -> (r: bool)
    ensures
        r == inline_request(name@),
{
    is_font_request(name) || is(name, "UR") || is(name, "UE") || is(name, "MT") || is(name, "ME")
        || is(name, "MR") || is(name, "OP")
}

fn end_matches(end: VerbatimEnd, name: &Vec<char>) -> (r: bool)
    ensures
        r == (name@ == end_name(end)),
{
    match end {
        VerbatimEnd::Fi => is(name, "fi"),
        VerbatimEnd::Ee => is(name, "EE"),
        VerbatimEnd::Te => is(name, "TE"),
    }
}

/// The characters of argument `i`, if there is one.
fn arg_at(args: &Vec<String>, i: usize) -> (r: Option<Vec<char>>)
    ensures
        r is Some <==> i < args.len(),
        r matches Some(v) ==> v@ == args@[i as int]@,
{
    if i < args.len() {
        Some(chars_of(args[i].as_str()))
    } else {
        None
    }
}

/// The arguments joined with single spaces.
fn args_joined(args: &Vec<String>) -> (r: Vec<char>)
    ensures
        r@ == join(views(args@), " "@),
{
    let mut parts: Vec<Vec<char>> = Vec::new();
    let mut i: usize = 0;
    while i < args.len()
        invariant
            i <= args.len(),
            char_views(parts@) == views(args@.subrange(0, i as int)),
        decreases args.len() - i,
    {
        let ghost before = parts@;
        parts.push(chars_of(args[i].as_str()));
        assert(char_views(parts@) =~= char_views(before).push(args@[i as int]@));
        assert(views(args@.subrange(0, i + 1)) =~= views(args@.subrange(0, i as int)).push(args@[i as int]@));
        i = i + 1;
    }
    assert(args@.subrange(0, args.len() as int) =~= args@);
    join_exec(&parts, " ")
}

/// Where the newlines leading `s` from `a` end.
pub open spec fn newline_lead(s: Seq<char>, a: int) -> int
    decreases s.len() - a,
{
    if 0 <= a < s.len() && s[a] == '\n' {
        newline_lead(s, a + 1)
    } else {
        a
    }
}

/// Where `s[..b]` ends once newlines trailing it, down to `a`, are dropped.
pub open spec fn newline_trail(s: Seq<char>, a: int, b: int) -> int
    decreases b - a,
{
    if a < b <= s.len() && s[b - 1] == '\n' {
        newline_trail(s, a, b - 1)
    } else {
        b
    }
}

/// `s` without leading and trailing newlines.
pub open spec fn strip_newlines(s: Seq<char>) -> Seq<char> {
    let a = newline_lead(s, 0);
    s.subrange(a, newline_trail(s, a, s.len() as int))
}

/// `s` without leading and trailing newlines.
fn trim_newlines(s: &Vec<char>) -> (r: Vec<char>)
    ensures
        r@ == strip_newlines(s@),
{
    let mut a: usize = 0;
    while a < s.len() && s[a] == '\n'
        invariant
            a <= s.len(),
            newline_lead(s@, 0) == newline_lead(s@, a as int),
        decreases s.len() - a,
    {
        a = a + 1;
    }
    let mut b = s.len();
    while b > a && s[b - 1] == '\n'
        invariant
            a <= b <= s.len(),
            newline_trail(s@, a as int, s@.len() as int) == newline_trail(s@, a as int, b as int),
        decreases b,
    {
        b = b - 1;
    }
    slice_chars(s, a, b)
}

impl Parser {
    pub open spec fn wf(self) -> bool {
        self.sink.wf()
    }

    pub(crate) fn new() -> (r: Parser)
        ensures
            r.wf(),
            r.header is None,
            r.sections@.len() == 0,
            r.current.title@.len() == 0,
            r.current.blocks@.len() == 0,
            r.current.lines@.len() == 0,
            r.sink.below@.len() == 0,
            r.sink.top.kind is Root,
            r.sink.top.blocks@.len() == 0,
            r.sink.top.para@.len() == 0,
            r.font == Font::Roman,
            r.next_font is None,
            !r.awaiting_tag,
            r.verbatim is None,
            r.link is None,
            !r.joined,
            r.break_line,
            fresh(r),
    {
        Parser {
            header: None,
            sections: Vec::new(),
            current: empty_section(),
            sink: Sink::new(),
            font: Font::Roman,
            next_font: None,
            awaiting_tag: false,
            verbatim: None,
            link: None,
            joined: false,
            break_line: true,
        }
    }

    /// Read every line of `source`.
    pub(crate) fn run(self, source: &Vec<char>) -> (r: Document)
        requires
            self.wf(),
        ensures
            exists|trace: Seq<Parser>, at: Seq<int>, end: Parser|
                #[trigger] reads(self, crate::text::lines_from(source@, 0), trace, at, end) && r.header == end.header
                    && r.sections == end.sections,
    {
        let ghost s0 = self;
        let mut parser = self;
        let lines = lines_of(source);
        let ghost ls = char_views(lines@);
        let pp = chars_of("PP");
        let no_args: Vec<String> = Vec::new();
        assert(views(no_args@) =~= Seq::<Seq<char>>::empty());
        let ghost mut trace: Seq<Parser> = seq![s0];
        let ghost mut at: Seq<int> = seq![0];
        let mut i: usize = 0;
        while i < lines.len()
            invariant
                parser.wf(),
                i <= lines.len(),
                ls == char_views(lines@),
                ls == crate::text::lines_from(source@, 0),
                pp@ == "PP"@,
                views(no_args@) == Seq::<Seq<char>>::empty(),
                trace.len() == at.len(),
                trace.len() > 0,
                trace[0] == s0,
                at[0] == 0,
                trace.last() == parser,
                at.last() == i,
                forall|k: int|
                    0 <= k < at.len() - 1 ==> 0 <= #[trigger] at[k] < ls.len() && at[k + 1] == next_line(ls, at[k])
                        && line_effect(trace[k], trace[k + 1], ls[at[k]]),
            decreases lines.len() - i,
        {
            let ghost p = i as int;
            let ghost before = parser;
            assert(ls[p] == lines@[p]@);
            let line = Line::read(&lines[i]);
            i = i + 1;
            match line {
                Line::Blank => parser.macro_line(&pp, &no_args),
                Line::Text(text) => parser.text_line(&text),
                Line::Control { name, args } => {
                    // Macro and ignore definitions swallow their bodies.
                    if is(&name, "de") || is(&name, "de1") || is(&name, "am") || is(&name, "ig") {
                        let ghost start = i as int;
                        let mut done = false;
                        while i < lines.len() && !done
                            invariant
                                start <= i <= lines.len(),
                                ls == char_views(lines@),
                                if done {
                                    i == body_end(ls, start)
                                } else {
                                    body_end(ls, start) == body_end(ls, i as int)
                                },
                            decreases lines.len() - i,
                        {
                            let body = &lines[i];
                            assert(ls[i as int] == body@);
                            i = i + 1;
                            let trimmed = trim_end_chars(body);
                            if is(&trimmed, "..") || crate::text::starts_with_exec(body, ".. ") {
                                done = true;
                            }
                        }
                    } else {
                        parser.macro_line(&name, &args);
                    }
                },
            }
            proof {
                assert(i == next_line(ls, p));
                assert(line_effect(before, parser, ls[p]));
                let t2 = trace.push(parser);
                let a2 = at.push(i as int);
                assert forall|k: int| 0 <= k < a2.len() - 1 implies 0 <= #[trigger] a2[k] < ls.len() && a2[k + 1]
                    == next_line(ls, a2[k]) && line_effect(t2[k], t2[k + 1], ls[a2[k]]) by {
                    if k < at.len() - 1 {
                        assert(a2[k] == at[k] && a2[k + 1] == at[k + 1]);
                        assert(t2[k] == trace[k] && t2[k + 1] == trace[k + 1]);
                    } else {
                        assert(a2[k] == p && t2[k] == before && t2[k + 1] == parser);
                    }
                }
                trace = t2;
                at = a2;
            }
        }
        parser.close_section();
        proof {
            assert(reads(s0, ls, trace, at, parser));
        }
        Document { header: parser.header, sections: parser.sections }
    }

    fn text_line(&mut self, text: &Vec<char>)
        requires
            old(self).wf(),
        ensures
            final(self).wf(),
            text_effect(*old(self), *final(self), text@),
    {
        if self.verbatim.is_some() {
            let line = plain(text);
            let mut verbatim = self.verbatim.take().unwrap();
            let ghost before = verbatim.lines@;
            verbatim.lines.push(line);
            assert(verbatim.lines@.drop_last() =~= before);
            self.verbatim = Some(verbatim);
            return;
        }
        let font = match self.next_font.take() {
            Some(f) => f,
            None => self.font,
        };
        let (inlines, after, joined) = decode(text, font);
        self.font = after;
        let ghost mid = *self;
        let ghost iv = inlines@;
        self.emit(inlines, joined);
        assert(emitted(mid, *self, iv, joined));
    }

    /// Route one line's worth of inline content to wherever it belongs: a
    /// pending `.TP` tag, an open link, or the current paragraph.
    fn emit(&mut self, inlines: Vec<Inline>, joined: bool)
        requires
            old(self).wf(),
        ensures
            final(self).wf(),
            emitted(*old(self), *final(self), inlines@, joined),
    {
        if inlines.len() == 0 {
            return;
        }
        if self.current.title.len() > 0 {
            // The section text follows roff's own filling: consecutive lines
            // are one line until a break, so `.B ls` and the argument line
            // under it stay the single synopsis line groff would print.
            let text = chars_of(crate::ir::to_plain_text(&inlines).as_str());
            let ghost before = char_views(self.current.lines@);
            if self.current.lines.len() > 0 && !self.break_line {
                let ghost kept = self.current.lines@;
                let mut line = self.current.lines.pop().unwrap();
                let ghost first = line@;
                if !self.joined {
                    line.push(' ');
                }
                push_chars(&mut line, &text);
                assert(first == before.last());
                assert(line@ =~= first + (if self.joined {
                    Seq::<char>::empty()
                } else {
                    seq![' ']
                }) + text@);
                self.current.lines.push(line);
                assert(kept.drop_last() =~= self.current.lines@.drop_last());
                assert(char_views(self.current.lines@).drop_last() =~= before.drop_last());
                assert(char_views(self.current.lines@) =~= section_lines(before, text@, self.break_line, self.joined));
            } else {
                self.current.lines.push(text);
                assert(char_views(self.current.lines@) =~= before.push(text@));
            }
            self.break_line = false;
        }
        if self.awaiting_tag {
            self.awaiting_tag = false;
            self.sink.start_term(trim_inlines(inlines));
            self.joined = false;
            return;
        }
        match self.link.take() {
            Some((dest, mut children)) => {
                let space = children.len() > 0 && !self.joined;
                append(&mut children, inlines, space);
                self.link = Some((dest, children));
            },
            None => {
                let space = self.sink.top.para.len() > 0 && !self.joined;
                append(&mut self.sink.top.para, inlines, space);
            },
        }
        self.joined = joined;
    }

    /// One request line.
    fn macro_line(&mut self, name: &Vec<char>, args: &Vec<String>)
        requires
            old(self).wf(),
        ensures
            final(self).wf(),
            macro_effect(*old(self), *final(self), name@, views(args@)),
    {
        let ghost a = *self;
        let ghost av = views(args@);
        // Inside `.nf`/`.EX`/`.TS`, only the closing request and a handful of
        // spacing requests mean anything; everything else is text.
        if self.verbatim.is_some() {
            let mut verbatim = self.verbatim.take().unwrap();
            if end_matches(verbatim.end, name) {
                let example = match verbatim.end {
                    VerbatimEnd::Ee => true,
                    _ => false,
                };
                self.push_code(verbatim.lines, example);
                return;
            }
            let ghost before = char_views(verbatim.lines@);
            if is(name, "PP") || is(name, "P") || is(name, "LP") || is(name, "sp") || is(name, "br") {
                verbatim.lines.push(Vec::new());
                assert(char_views(verbatim.lines@) =~= before + verbatim_extra(name@, av));
            } else if is_font_request(name) {
                let inlines = alternating(name, args);
                proof {
                    crate::man::roff::lemma_plain_wraps(
                        inlines@,
                        crate::man::roff::alt_runs(name@, av, args.len() as int),
                    );
                }
                verbatim.lines.push(chars_of(crate::ir::to_plain_text(&inlines).as_str()));
                assert(char_views(verbatim.lines@) =~= before + verbatim_extra(name@, av));
            } else {
                assert(char_views(verbatim.lines@) =~= before + verbatim_extra(name@, av));
            }
            self.verbatim = Some(verbatim);
            return;
        }
        // Everything except the requests that emit inline content ends the
        // current line of section text.
        if !is_inline_request(name) {
            self.break_line = true;
        }
        if is(name, "TH") {
            let page = match arg_at(args, 0) {
                Some(a) => plain(&a),
                None => Vec::new(),
            };
            let section = match arg_at(args, 1) {
                Some(a) => plain(&a),
                None => Vec::new(),
            };
            self.header = Some(Header { name: page, section });
        } else if is(name, "SH") {
            self.close_section();
            self.current.title = plain(&args_joined(args));
            self.font = Font::Roman;
        } else if is(name, "SS") {
            self.sink.para_break();
            let (inlines, _, _) = decode(&args_joined(args), Font::Roman);
            self.sink.push_block(Block::Heading { level: 2, content: inlines });
        } else if is(name, "PP") || is(name, "P") || is(name, "LP") || is(name, "HP") || is(name, "sp")
            || is(name, "Pp") {
            self.sink.para_break();
        } else if is(name, "br") {
            if self.sink.top.para.len() > 0 {
                self.sink.top.para.push(Inline::LineBreak);
                self.joined = true;
            }
        } else if is(name, "TP") || is(name, "TQ") {
            // The paragraph break a following `.TP` implies ends the current
            // item's body but keeps the list open.
            self.sink.flush_para();
            self.awaiting_tag = true;
        } else if is(name, "IP") {
            match arg_at(args, 0) {
                None => self.sink.para_break(),
                Some(tag) => match bullet(&tag) {
                    Some(ordered) => self.sink.start_item(ordered),
                    None => {
                        let (inlines, _, _) = decode(&tag, Font::Roman);
                        let ghost iv = inlines@;
                        let term = trim_inlines(inlines);
                        assert(crate::man::sink::trimmed(term@, iv));
                        self.sink.start_term(term);
                    },
                },
            }
        } else if is(name, "RS") {
            self.sink.start_indent();
        } else if is(name, "RE") {
            self.sink.end_indent();
        } else if is(name, "nf") {
            self.verbatim = Some(Verbatim { lines: Vec::new(), end: VerbatimEnd::Fi });
        } else if is(name, "EX") {
            self.verbatim = Some(Verbatim { lines: Vec::new(), end: VerbatimEnd::Ee });
        } else if is(name, "TS") {
            self.verbatim = Some(Verbatim { lines: Vec::new(), end: VerbatimEnd::Te });
        } else if is_font_request(name) {
            if args.len() == 0 {
                // A bare `.B` fonts the following line.
                self.next_font = Some(
                    if is(name, "I") || is(name, "IR") || is(name, "IB") {
                        Font::Italic
                    } else if is(name, "R") {
                        Font::Roman
                    } else {
                        Font::Bold
                    },
                );
                return;
            }
            let inlines = alternating(name, args);
            let ghost iv = inlines@;
            assert(*self == a);
            self.emit(inlines, false);
            assert(emitted(a, *self, iv, false));
            assert(font_emitted(a, *self, name@, av));
        } else if is(name, "UR") || is(name, "MT") {
            let target = match arg_at(args, 0) {
                Some(a) => string_of(a.as_slice()),
                None => String::new(),
            };
            let dest = if is(name, "UR") {
                LinkDest::Url(target)
            } else {
                LinkDest::Email(target)
            };
            self.link = Some((dest, Vec::new()));
        } else if is(name, "UE") || is(name, "ME") {
            assert(*self == a);
            self.emit_ue(args);
        } else if is(name, "MR") {
            assert(*self == a);
            self.emit_mr(args);
        } else if is(name, "SY") {
            assert(*self == Parser { break_line: a.break_line || !inline_request(name@), ..a });
            self.emit_sy(args);
        } else if is(name, "OP") {
            assert(*self == a);
            self.emit_op(args);
        } else if is(name, "YS") {
            self.sink.para_break();
        }
        // Anything else is a formatting request with no meaning outside a
        // fixed-width page.
    }

    /// `.UE`/`.ME`: close the open link. A trailing argument is
    /// punctuation that follows the link with no space; anything after
    /// that is ordinary prose, and gets one.
    fn emit_ue(&mut self, args: &Vec<String>)
        requires
            old(self).wf(),
        ensures
            final(self).wf(),
            ue_emitted(*old(self), *final(self), views(args@)),
    {
        let ghost a = *self;
        let ghost av = views(args@);
        let punctuated = args.len() > 0;
        match self.link.take() {
            Some((dest, children)) => {
                let ghost c = children@;
                let ghost d = dest;
                let trimmed = trim_inlines(children);
                let ghost tv = trimmed@;
                let link = Inline::Link { dest, children: trimmed };
                let mut v: Vec<Inline> = Vec::new();
                v.push(link);
                let ghost vv = v@;
                assert(vv[0] matches Inline::Link { dest, children } && dest == d && children@ == tv);
                assert(a.link matches Some((d2, c2)) && d2 == d && c2@ == c);
                assert(*self == Parser { link: None, ..a });
                self.emit(v, punctuated);
                assert(emitted(Parser { link: None, ..a }, *self, vv, punctuated));
                assert(av.len() == args.len());
                assert(crate::man::sink::trimmed(tv, c));
                assert(vv.len() == 1);
                assert(vv[0] matches Inline::Link { dest, children } && dest == d && crate::man::sink::trimmed(
                    children@,
                    c,
                ));
                assert(emitted(Parser { link: None, ..a }, *self, vv, av.len() > 0));
                assert(link_closed(a, *self, av));
            },
            None => {
                assert(*self == a);
            },
        }
        let ghost mid = *self;
        assert(link_closed(a, mid, av));
        match arg_at(args, 0) {
            Some(punct) => {
                let mut v: Vec<Inline> = Vec::new();
                v.push(Inline::Text(plain_string(&punct)));
                let ghost vv = v@;
                self.emit(v, false);
                assert(emitted(mid, *self, vv, false));
            },
            None => {},
        }
    }

    /// groff's cross-reference request: `.MR ls 1 .`
    fn emit_mr(&mut self, args: &Vec<String>)
        requires
            old(self).wf(),
        ensures
            final(self).wf(),
            mr_emitted(*old(self), *final(self), views(args@)),
    {
        let ghost a = *self;
        let ghost av = views(args@);
        proof {
            reveal_strlit("(");
            reveal_strlit(")");
        }
        let topic = match arg_at(args, 0) {
            Some(a) => string_of(a.as_slice()),
            None => String::new(),
        };
        let mut inlines: Vec<Inline> = Vec::new();
        inlines.push(
            Inline::Link { dest: LinkDest::Topic { package: None, topic }, children: Vec::new() },
        );
        match arg_at(args, 1) {
            Some(section) => {
                let mut t: Vec<char> = Vec::new();
                t.push('(');
                push_chars(&mut t, &section);
                t.push(')');
                assert(t@ =~= "("@ + av[1] + ")"@);
                inlines.push(Inline::Text(string_of(t.as_slice())));
            },
            None => {},
        }
        match arg_at(args, 2) {
            Some(punct) => inlines.push(Inline::Text(plain_string(&punct))),
            None => {},
        }
        let ghost iv = inlines@;
        assert(mr_inlines(iv, av));
        self.emit(inlines, false);
        assert(emitted(a, *self, iv, false));
    }

    /// `.SY cmd`: the command of a synopsis, in bold.
    fn emit_sy(&mut self, args: &Vec<String>)
        requires
            old(self).wf(),
        ensures
            final(self).wf(),
            sy_emitted(*old(self), *final(self), views(args@)),
    {
        let ghost a = *self;
        let command = match arg_at(args, 0) {
            Some(a) => plain_string(&a),
            None => String::new(),
        };
        let mut strong: Vec<Inline> = Vec::new();
        strong.push(Inline::Text(command));
        let mut v: Vec<Inline> = Vec::new();
        v.push(Inline::Strong(strong));
        let ghost vv = v@;
        self.emit(v, false);
        assert(emitted(a, *self, vv, false));
    }

    /// `.OP -f file`: an optional argument of a synopsis, in brackets.
    fn emit_op(&mut self, args: &Vec<String>)
        requires
            old(self).wf(),
        ensures
            final(self).wf(),
            op_emitted(*old(self), *final(self), views(args@)),
    {
        let ghost a = *self;
        let ghost av = views(args@);
        let mut parts: Vec<Vec<char>> = Vec::new();
        let mut i: usize = 0;
        while i < args.len()
            invariant
                i <= args.len(),
                av == views(args@),
                char_views(parts@) == plains(av).subrange(0, i as int),
            decreases args.len() - i,
        {
            let ghost before = char_views(parts@);
            parts.push(plain(&chars_of(args[i].as_str())));
            assert(char_views(parts@) =~= before.push(crate::man::roff::plain_spec(av[i as int])));
            assert(plains(av).subrange(0, i + 1) =~= plains(av).subrange(0, i as int).push(
                crate::man::roff::plain_spec(av[i as int]),
            ));
            i = i + 1;
        }
        assert(plains(av).subrange(0, args.len() as int) =~= plains(av));
        let mut t: Vec<char> = Vec::new();
        t.push('[');
        push_chars(&mut t, &join_exec(&parts, " "));
        t.push(']');
        proof {
            reveal_strlit("[");
            reveal_strlit("]");
        }
        assert(t@ =~= "["@ + join(plains(av), " "@) + "]"@);
        let mut v: Vec<Inline> = Vec::new();
        v.push(Inline::Text(string_of(t.as_slice())));
        let ghost vv = v@;
        self.emit(v, false);
        assert(emitted(a, *self, vv, false));
    }

    fn push_code(&mut self, lines: Vec<Vec<char>>, example: bool)
        requires
            old(self).wf(),
        ensures
            final(self).wf(),
            code_pushed(*old(self), *final(self), char_views(lines@), example),
    {
        let ghost a = *self;
        let ghost ls = char_views(lines@);
        let value = join_exec(&lines, "\n");
        if !has_non_ws_exec(&value) {
            return;
        }
        // A synopsis written as `.nf` is still a synopsis: its lines belong to
        // the section's text as much as a filled line does.
        let mut lines = lines;
        let ghost before = self.current.lines@;
        self.current.lines.append(&mut lines);
        assert(char_views(self.current.lines@) =~= char_views(before) + ls);
        self.break_line = true;
        self.sink.para_break();
        // `.EX` marks an example; `.nf` is only "do not fill", which is also
        // how tables and diagrams are written, so it gets no language.
        let lang = if example {
            Some(crate::text::owned("sh"))
        } else {
            None
        };
        let trimmed = trim_newlines(&value);
        self.sink.push_block(Block::Code { lang, value: string_of(trimmed.as_slice()) });
    }

    fn close_section(&mut self)
        requires
            old(self).wf(),
        ensures
            final(self).wf(),
            section_closed(*old(self), *final(self)),
            final(self).current.title@.len() == 0,
            final(self).font == old(self).font,
            final(self).break_line == old(self).break_line,
    {
        let mut sink = Sink::new();
        std::mem::swap(&mut sink, &mut self.sink);
        let blocks = sink.finish();
        let ghost bl = blocks@;
        assert(crate::man::sink::finishes(old(self).sink.below@, old(self).sink.top, bl));
        let mut section = empty_section();
        std::mem::swap(&mut section, &mut self.current);
        section.blocks = blocks;
        if section.title.len() == 0 && section.blocks.len() == 0 {
            assert(self.sections@.subrange(0, old(self).sections@.len() as int) =~= old(self).sections@);
            return;
        }
        let ghost before = self.sections@;
        self.sections.push(section);
        assert(self.sections@.subrange(0, before.len() as int) =~= before);
    }
}

} // verus!
