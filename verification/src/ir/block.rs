//! Block-level content.

use vstd::prelude::*;

use super::inline::{inlines_v, Inline, InlineV, Target};

verus! {

/// Column alignment in a table.
#[derive(Debug, Clone, Copy, PartialEq, Eq)]
pub enum Align {
    Left,
    Center,
    Right,
}

/// One entry in a term list: `\describe{}` in Rd, a definition list elsewhere.
#[derive(Debug, PartialEq, Eq)]
pub struct Term {
    pub term: Vec<Inline>,
    pub body: Vec<Block>,
}

/// Block-level content.
///
/// The split from [`Inline`] is deliberate: it lets the writer decide line
/// breaking from the type alone.
#[derive(Debug, PartialEq, Eq)]
pub enum Block {
    Paragraph(Vec<Inline>),
    Heading {
        /// 1-based, relative to the topic's own heading level.
        level: u8,
        content: Vec<Inline>,
    },
    /// A code listing. `lang` selects syntax highlighting.
    Code { lang: Option<String>, value: String },
    List { ordered: bool, items: Vec<Vec<Block>> },
    /// A term/definition list, rendered as Typst `#terms`.
    Terms(Vec<Term>),
    Table {
        align: Vec<Align>,
        /// Row-major; each cell is inline content.
        rows: Vec<Vec<Vec<Inline>>>,
    },
    /// Display math, as LaTeX source: `\deqn{}`.
    DisplayMath(String),
    /// Raw HTML from `\out{}`, re-expressed as `html.elem` where possible.
    Html(String),
    /// Several blocks with no wrapper of their own.
    Group(Vec<Block>),
    /// A branch that applies only to one output target: `\if`, `\ifelse`,
    /// `#ifdef`.
    Targeted { target: Target, then: Vec<Block>, otherwise: Vec<Block> },
    /// Verbatim Typst, passed through untouched.
    Raw(String),
}

/// A term entry's value.
pub struct TermV {
    pub term: Seq<InlineV>,
    pub body: Seq<BlockV>,
}

/// What a block holds, with its text as characters: the value a [`Block`]
/// is compared by in contracts.
pub enum BlockV {
    Paragraph(Seq<InlineV>),
    Heading { level: u8, content: Seq<InlineV> },
    Code { lang: Option<Seq<char>>, value: Seq<char> },
    List { ordered: bool, items: Seq<Seq<BlockV>> },
    Terms(Seq<TermV>),
    Table { align: Seq<Align>, rows: Seq<Seq<Seq<InlineV>>> },
    DisplayMath(Seq<char>),
    Html(Seq<char>),
    Group(Seq<BlockV>),
    Targeted { target: Target, then: Seq<BlockV>, otherwise: Seq<BlockV> },
    Raw(Seq<char>),
}

/// A block's value.
pub open spec fn block_v(b: Block) -> BlockV
    decreases b, 1nat,
{
    match b {
        Block::Paragraph(v) => BlockV::Paragraph(inlines_v(v@)),
        Block::Heading { level, content } => BlockV::Heading { level, content: inlines_v(content@) },
        Block::Code { lang, value } => BlockV::Code {
            lang: match lang {
                Some(l) => Some(l@),
                None => None,
            },
            value: value@,
        },
        Block::List { ordered, items } => BlockV::List { ordered, items: items_v(items@) },
        Block::Terms(terms) => BlockV::Terms(terms_v(terms@)),
        Block::Table { align, rows } => BlockV::Table { align: align@, rows: rows_v(rows@) },
        Block::DisplayMath(v) => BlockV::DisplayMath(v@),
        Block::Html(v) => BlockV::Html(v@),
        Block::Group(v) => BlockV::Group(blocks_v(v@)),
        Block::Targeted { target, then, otherwise } => BlockV::Targeted {
            target,
            then: blocks_v(then@),
            otherwise: blocks_v(otherwise@),
        },
        Block::Raw(v) => BlockV::Raw(v@),
    }
}

/// The values of a run of blocks.
pub open spec fn blocks_v(s: Seq<Block>) -> Seq<BlockV>
    decreases s, 0nat,
{
    if s.len() == 0 {
        Seq::<BlockV>::empty()
    } else {
        blocks_v(s.drop_last()).push(block_v(s.last()))
    }
}

/// The values of list items.
pub open spec fn items_v(s: Seq<Vec<Block>>) -> Seq<Seq<BlockV>>
    decreases s, 0nat,
{
    if s.len() == 0 {
        Seq::<Seq<BlockV>>::empty()
    } else {
        items_v(s.drop_last()).push(blocks_v(s.last()@))
    }
}

/// The values of term entries.
pub open spec fn terms_v(s: Seq<Term>) -> Seq<TermV>
    decreases s, 0nat,
{
    if s.len() == 0 {
        Seq::<TermV>::empty()
    } else {
        terms_v(s.drop_last()).push(TermV { term: inlines_v(s.last().term@), body: blocks_v(s.last().body@) })
    }
}

/// The values of table rows.
pub open spec fn rows_v(s: Seq<Vec<Vec<Inline>>>) -> Seq<Seq<Seq<InlineV>>>
    decreases s, 0nat,
{
    if s.len() == 0 {
        Seq::<Seq<Seq<InlineV>>>::empty()
    } else {
        rows_v(s.drop_last()).push(cells_v(s.last()@))
    }
}

/// The values of a row's cells.
pub open spec fn cells_v(s: Seq<Vec<Inline>>) -> Seq<Seq<InlineV>>
    decreases s,
{
    if s.len() == 0 {
        Seq::<Seq<InlineV>>::empty()
    } else {
        cells_v(s.drop_last()).push(inlines_v(s.last()@))
    }
}

/// The values of a run with one more block pushed.
pub proof fn lemma_blocks_v_push(a: Seq<Block>, x: Block)
    ensures
        blocks_v(a.push(x)) == blocks_v(a).push(block_v(x)),
{
    assert(a.push(x).drop_last() =~= a);
}

/// The value of a run holds the value of each of its blocks, in place.
pub proof fn lemma_blocks_v_index(s: Seq<Block>)
    ensures
        blocks_v(s).len() == s.len(),
        forall|k: int| 0 <= k < s.len() ==> #[trigger] blocks_v(s)[k] == block_v(s[k]),
    decreases s.len(),
{
    if s.len() > 0 {
        lemma_blocks_v_index(s.drop_last());
    }
}

/// The values of two runs one after the other are those of each, in turn.
pub proof fn lemma_blocks_v_concat(a: Seq<Block>, b: Seq<Block>)
    ensures
        blocks_v(a + b) == blocks_v(a) + blocks_v(b),
    decreases b.len(),
{
    if b.len() == 0 {
        assert(a + b =~= a);
        assert(blocks_v(a) + blocks_v(b) =~= blocks_v(a));
    } else {
        lemma_blocks_v_concat(a, b.drop_last());
        assert((a + b).drop_last() =~= a + b.drop_last());
        assert((a + b).last() == b.last());
    }
}

} // verus!
