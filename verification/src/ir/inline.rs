//! Inline (span-level) content.

use vstd::prelude::*;

use crate::text::{chars_of, owned};

verus! {

broadcast use vstd::std_specs::vec::axiom_vec_decreases_to_view;

/// Where a link points.
#[derive(Debug, Clone, PartialEq, Eq)]
pub enum LinkDest {
    /// An absolute URL.
    Url(String),
    /// An email address, without the `mailto:` scheme.
    Email(String),
    /// A DOI, without the resolver prefix.
    Doi(String),
    /// Another documentation topic, optionally in another package or module.
    Topic { package: Option<String>, topic: String },
}

/// Span-level content. Readers populate what their source can express; the
/// writer renders every variant.
#[derive(Debug, PartialEq, Eq)]
pub enum Inline {
    /// Literal text. Escaping is the writer's job, never the reader's.
    Text(String),
    /// Verbatim Typst, written unescaped: titles taken from Typst doc bodies
    /// are already markup, which `Text` would escape.
    Raw(String),
    /// Inline code: `\code{}`, or a docstring's ``literal``.
    Code(String),
    /// Verbatim text that must not be reflowed.
    Verb(String),
    Emph(Vec<Inline>),
    Strong(Vec<Inline>),
    Link {
        dest: LinkDest,
        /// Display text. Empty means "render the destination itself".
        children: Vec<Inline>,
    },
    /// Inline math, as LaTeX source: `\eqn{}`.
    Math(String),
    /// An explicit line break within a paragraph.
    LineBreak,
    /// An unevaluated `\Sexpr{}`: R code that needs a live R session.
    Sexpr(String),
    /// A branch that applies only to one output target: `\if`, `\ifelse`.
    Targeted { target: Target, then: Vec<Inline>, otherwise: Vec<Inline> },
}

/// Which output target a conditional branch applies to.
///
/// Both branches survive into the document and Typst's own `target()` picks
/// between them at compile time.
#[derive(Debug, Clone, Copy, PartialEq, Eq)]
pub enum Target {
    /// Applies when compiling to HTML.
    Html,
    /// Applies when compiling to anything else, PDF included.
    Print,
}

impl Inline {
    /// Convenience for the common case of a plain-text run.
    pub fn text(value: &str) -> (r: Inline)
        ensures
            r matches Inline::Text(t) && t@ == value@,
    {
        Inline::Text(owned(value))
    }
}

/// Where a link points, with its text as characters.
pub enum DestV {
    Url(Seq<char>),
    Email(Seq<char>),
    Doi(Seq<char>),
    Topic { package: Option<Seq<char>>, topic: Seq<char> },
}

/// What an inline holds, with its text as characters: the value an
/// [`Inline`] is compared by in contracts.
pub enum InlineV {
    Text(Seq<char>),
    Raw(Seq<char>),
    Code(Seq<char>),
    Verb(Seq<char>),
    Emph(Seq<InlineV>),
    Strong(Seq<InlineV>),
    Link { dest: DestV, children: Seq<InlineV> },
    Math(Seq<char>),
    LineBreak,
    Sexpr(Seq<char>),
    Targeted { target: Target, then: Seq<InlineV>, otherwise: Seq<InlineV> },
}

/// A link destination's value.
pub open spec fn dest_v(d: LinkDest) -> DestV {
    match d {
        LinkDest::Url(v) => DestV::Url(v@),
        LinkDest::Email(v) => DestV::Email(v@),
        LinkDest::Doi(v) => DestV::Doi(v@),
        LinkDest::Topic { package, topic } => DestV::Topic {
            package: match package {
                Some(p) => Some(p@),
                None => None,
            },
            topic: topic@,
        },
    }
}

/// An inline's value.
pub open spec fn inline_v(i: Inline) -> InlineV
    decreases i, 1nat,
{
    match i {
        Inline::Text(v) => InlineV::Text(v@),
        Inline::Raw(v) => InlineV::Raw(v@),
        Inline::Code(v) => InlineV::Code(v@),
        Inline::Verb(v) => InlineV::Verb(v@),
        Inline::Emph(c) => InlineV::Emph(inlines_v(c@)),
        Inline::Strong(c) => InlineV::Strong(inlines_v(c@)),
        Inline::Link { dest, children } => InlineV::Link { dest: dest_v(dest), children: inlines_v(children@) },
        Inline::Math(v) => InlineV::Math(v@),
        Inline::LineBreak => InlineV::LineBreak,
        Inline::Sexpr(v) => InlineV::Sexpr(v@),
        Inline::Targeted { target, then, otherwise } => InlineV::Targeted {
            target,
            then: inlines_v(then@),
            otherwise: inlines_v(otherwise@),
        },
    }
}

/// The values of an inline run.
pub open spec fn inlines_v(s: Seq<Inline>) -> Seq<InlineV>
    decreases s, 0nat,
{
    if s.len() == 0 {
        Seq::<InlineV>::empty()
    } else {
        inlines_v(s.drop_last()).push(inline_v(s.last()))
    }
}

pub proof fn lemma_inlines_v_len(s: Seq<Inline>)
    ensures
        inlines_v(s).len() == s.len(),
    decreases s.len(),
{
    if s.len() > 0 {
        lemma_inlines_v_len(s.drop_last());
    }
}

/// The value of a run holds the value of each of its inlines, in place.
pub proof fn lemma_inlines_v_index(s: Seq<Inline>)
    ensures
        inlines_v(s).len() == s.len(),
        forall|k: int| 0 <= k < s.len() ==> #[trigger] inlines_v(s)[k] == inline_v(s[k]),
    decreases s.len(),
{
    if s.len() > 0 {
        lemma_inlines_v_index(s.drop_last());
    }
}

/// The values of two runs one after the other are those of each, in turn.
pub proof fn lemma_inlines_v_concat(a: Seq<Inline>, b: Seq<Inline>)
    ensures
        inlines_v(a + b) == inlines_v(a) + inlines_v(b),
    decreases b.len(),
{
    if b.len() == 0 {
        assert(a + b =~= a);
        assert(inlines_v(a) + inlines_v(b) =~= inlines_v(a));
    } else {
        lemma_inlines_v_concat(a, b.drop_last());
        assert((a + b).drop_last() =~= a + b.drop_last());
        assert((a + b).last() == b.last());
    }
}

/// The values of a run with one more inline pushed.
pub proof fn lemma_inlines_v_push(a: Seq<Inline>, x: Inline)
    ensures
        inlines_v(a.push(x)) == inlines_v(a).push(inline_v(x)),
{
    assert(a.push(x).drop_last() =~= a);
}

/// The text a link with no display text stands for.
pub open spec fn dest_text(dest: LinkDest) -> Seq<char> {
    match dest {
        LinkDest::Url(v) => v@,
        LinkDest::Email(v) => v@,
        LinkDest::Doi(v) => v@,
        LinkDest::Topic { topic, .. } => topic@,
    }
}

/// The plain text of one inline: its characters with all markup dropped.
/// A conditional contributes its print branch, or `then` when there is none.
pub open spec fn plain_inline(inline: Inline) -> Seq<char>
    decreases inline,
{
    match inline {
        Inline::Text(v) => v@,
        Inline::Raw(v) => v@,
        Inline::Code(v) => v@,
        Inline::Verb(v) => v@,
        Inline::Math(v) => v@,
        Inline::Sexpr(v) => v@,
        Inline::Emph(children) => plain_text(children@),
        Inline::Strong(children) => plain_text(children@),
        Inline::Link { dest, children } => if children@.len() == 0 {
            dest_text(dest)
        } else {
            plain_text(children@)
        },
        Inline::LineBreak => seq![' '],
        Inline::Targeted { then, otherwise, .. } => if otherwise@.len() == 0 {
            plain_text(then@)
        } else {
            plain_text(otherwise@)
        },
    }
}

/// The plain text of an inline run: each inline's text, concatenated.
pub open spec fn plain_text(inlines: Seq<Inline>) -> Seq<char>
    decreases inlines,
{
    if inlines.len() == 0 {
        seq![]
    } else {
        plain_text(inlines.subrange(0, inlines.len() - 1)) + plain_inline(inlines[inlines.len() - 1])
    }
}

/// Flatten inline content to plain text, dropping markup.
///
/// Used where a target admits no markup at all, such as a `#table` column
/// specifier or a label.
pub fn to_plain_text(inlines: &Vec<Inline>) -> (r: String)
    ensures
        r@ == plain_text(inlines@),
{
    let mut out: Vec<char> = Vec::new();
    push_plain_text(inlines, &mut out);
    crate::text::string_of(out.as_slice())
}

fn push_str_of(out: &mut Vec<char>, s: &String)
    ensures
        final(out)@ == old(out)@ + s@,
{
    let mut tail = chars_of(s.as_str());
    out.append(&mut tail);
}

fn push_plain_text(inlines: &Vec<Inline>, out: &mut Vec<char>)
    ensures
        final(out)@ == old(out)@ + plain_text(inlines@),
    decreases inlines@,
{
    let ghost start = out@;
    let mut i: usize = 0;
    while i < inlines.len()
        invariant
            i <= inlines.len(),
            out@ == start + plain_text(inlines@.subrange(0, i as int)),
        decreases inlines.len() - i,
    {
        assert(inlines@.subrange(0, i + 1).subrange(0, i as int) =~= inlines@.subrange(0, i as int));
        let ghost before = out@;
        match &inlines[i] {
            Inline::Text(v) => push_str_of(out, v),
            Inline::Raw(v) => push_str_of(out, v),
            Inline::Code(v) => push_str_of(out, v),
            Inline::Verb(v) => push_str_of(out, v),
            Inline::Math(v) => push_str_of(out, v),
            Inline::Sexpr(v) => push_str_of(out, v),
            Inline::Emph(children) => push_plain_text(children, out),
            Inline::Strong(children) => push_plain_text(children, out),
            Inline::Link { dest, children } => {
                if children.len() == 0 {
                    match dest {
                        LinkDest::Url(v) => push_str_of(out, v),
                        LinkDest::Email(v) => push_str_of(out, v),
                        LinkDest::Doi(v) => push_str_of(out, v),
                        LinkDest::Topic { topic, .. } => push_str_of(out, topic),
                    }
                } else {
                    push_plain_text(children, out);
                }
            },
            Inline::LineBreak => out.push(' '),
            Inline::Targeted { then, otherwise, .. } => {
                // Plain text has no target, so the print branch wins.
                if otherwise.len() == 0 {
                    push_plain_text(then, out);
                } else {
                    push_plain_text(otherwise, out);
                }
            },
        }
        assert(out@ =~= before + plain_inline(inlines@[i as int]));
        i = i + 1;
    }
    assert(inlines@.subrange(0, inlines.len() as int) =~= inlines@);
}

impl Target {
    /// The Typst condition that is true for this target.
    pub fn condition(self) -> (r: &'static str)
        ensures
            r@ == condition_text(self),
    {
        match self {
            Target::Html => "target() == \"html\"",
            Target::Print => "target() != \"html\"",
        }
    }
}

/// The Typst expression true exactly on `target`.
pub open spec fn condition_text(target: Target) -> Seq<char> {
    match target {
        Target::Html => "target() == \"html\""@,
        Target::Print => "target() != \"html\""@,
    }
}

} // verus!
