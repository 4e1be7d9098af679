//! The R reader: Rd source to [`Topic`].
//!
//! Section dispatch and the inline tag mapping follow rd2qmd
//! (`crates/rd2qmd-core/`), MIT licensed, Copyright (c) 2026 rd2md authors.
//! See NOTICE.md.
//!
//! The reader works on [`Node`], which holds as plain values what the
//! conversion reads of an Rd tree: leaf text, the macro name of a tagged
//! node (`\code`, `\item`, ...), its option and its children. The `rd-source`
//! crate parses the file, and [`tree`] carries its tree over.

pub mod tree;

use vstd::prelude::*;

use crate::ir::inline::{
    inline_v, inlines_v, lemma_inlines_v_concat, lemma_inlines_v_push, DestV, InlineV,
};
use crate::ir::block::{
    block_v, blocks_v, cells_v, items_v, lemma_blocks_v_push, rows_v, terms_v, BlockV, TermV,
};
use crate::ir::{Align, Block, Example, Inline, LinkDest, Param, Section, Target, Term, Topic};
use crate::ir::topic::{examples_v, sections_v, SectionV};
use crate::man::names::{find_sub_exec, words_exec, words_from};
use crate::man::roff::{is, views};
use crate::text::{
    char_views, chars_of, has_non_ws, has_non_ws_exec, is_ws, is_whitespace, join, join_exec, owned,
    push_chars, push_str, slice_chars, string_of, trim, trim_chars, trim_end_chars,
};
pub use tree::{parse, RdError};

verus! {

broadcast use vstd::std_specs::vec::axiom_vec_decreases_to_view;

/// One node of an Rd document.
pub enum Node {
    /// Plain documentation text.
    Text(String),
    /// R source code, as found inside `\usage` and `\examples`.
    RCode(String),
    /// Verbatim text, as found inside `\verb{}` and `\preformatted{}`.
    Verb(String),
    /// A `%` comment.
    Comment(String),
    /// A macro: its name with the backslash (`\code`), its `[option]`, and
    /// its content.
    Tagged { tag: String, option: Option<Vec<Node>>, children: Vec<Node> },
    /// An untagged positional-argument group: `{...}`.
    Group(Vec<Node>),
    /// Anything else the parser kept, which no conversion reads.
    Raw,
}

/// A parsed Rd file: its top-level nodes.
pub struct Document {
    pub nodes: Vec<Node>,
}

// -- plain text -------------------------------------------------------------------

/// The text content of nodes, markup dropped.
pub open spec fn rd_plain(nodes: Seq<Node>) -> Seq<char>
    decreases nodes, 0int,
{
    if nodes.len() == 0 {
        seq![]
    } else {
        rd_plain(nodes.subrange(0, nodes.len() - 1)) + rd_plain_node(nodes[nodes.len() - 1])
    }
}

pub open spec fn rd_plain_node(node: Node) -> Seq<char>
    decreases node, 1int,
{
    match node {
        Node::Text(t) => t@,
        Node::RCode(t) => t@,
        Node::Verb(t) => t@,
        Node::Group(c) => rd_plain(c@),
        Node::Tagged { children, .. } => rd_plain(children@),
        _ => seq![],
    }
}

fn push_plain_node(node: &Node, out: &mut Vec<char>)
    ensures
        final(out)@ == old(out)@ + rd_plain_node(*node),
    decreases node, 1int,
{
    match node {
        Node::Text(t) => push_chars(out, &chars_of(t.as_str())),
        Node::RCode(t) => push_chars(out, &chars_of(t.as_str())),
        Node::Verb(t) => push_chars(out, &chars_of(t.as_str())),
        Node::Group(c) => push_plain(c, out),
        Node::Tagged { children, .. } => push_plain(children, out),
        _ => {
            assert(out@ =~= out@ + Seq::<char>::empty());
        },
    }
}

fn push_plain(nodes: &Vec<Node>, out: &mut Vec<char>)
    ensures
        final(out)@ == old(out)@ + rd_plain(nodes@),
    decreases nodes@, 0int,
{
    let ghost start = out@;
    let mut i: usize = 0;
    assert(nodes@.subrange(0, 0) =~= Seq::<Node>::empty());
    assert(start + Seq::<char>::empty() =~= start);
    while i < nodes.len()
        invariant
            i <= nodes.len(),
            out@ == start + rd_plain(nodes@.subrange(0, i as int)),
        decreases nodes.len() - i,
    {
        proof {
            assert(decreases_to!(nodes@ => nodes@[i as int]));
        }
        push_plain_node(&nodes[i], out);
        assert(nodes@.subrange(0, i + 1).subrange(0, i as int) =~= nodes@.subrange(0, i as int));
        assert(out@ =~= start + rd_plain(nodes@.subrange(0, i + 1)));
        i = i + 1;
    }
    assert(nodes@.subrange(0, i as int) =~= nodes@);
}

/// Flatten nodes to their text content, dropping markup.
pub(crate) fn plain_text(nodes: &Vec<Node>) -> (r: Vec<char>)
    ensures
        r@ == rd_plain(nodes@),
{
    let mut out: Vec<char> = Vec::new();
    push_plain(nodes, &mut out);
    out
}

fn plain_string(nodes: &Vec<Node>) -> (r: String)
    ensures
        r@ == rd_plain(nodes@),
{
    string_of(plain_text(nodes).as_slice())
}

fn trimmed_plain(nodes: &Vec<Node>) -> (r: String)
    ensures
        r@ == trim(rd_plain(nodes@)),
{
    string_of(trim_chars(&plain_text(nodes)).as_slice())
}

// -- whitespace -------------------------------------------------------------------

/// Rd's source line wrapping collapsed into single spaces; an edge of
/// whitespace becomes one space rather than vanishing.
pub open spec fn collapse_spec(v: Seq<char>) -> Seq<char> {
    let core = join(words_from(v, 0), " "@);
    if v.len() == 0 {
        seq![]
    } else if core.len() == 0 {
        seq![' ']
    } else {
        (if is_ws(v[0]) {
            seq![' ']
        } else {
            seq![]
        }) + core + (if is_ws(v.last()) {
            seq![' ']
        } else {
            seq![]
        })
    }
}

/// Collapse Rd's source line wrapping into single spaces.
///
/// Rd is whitespace-insensitive within a paragraph, and Typst would otherwise
/// inherit the original hard wrapping. Leading and trailing whitespace
/// collapses to a single space rather than vanishing: inline text arrives
/// split across several nodes, and the space between `\code{f}` and the word
/// after it lives at exactly that boundary.
pub(crate) fn collapse(value: &Vec<char>) -> (r: Vec<char>)
    ensures
        r@ == collapse_spec(value@),
{
    if value.len() == 0 {
        return Vec::new();
    }
    let leading = is_whitespace(value[0]);
    let trailing = is_whitespace(value[value.len() - 1]);
    let core = join_exec(&words_exec(value), " ");
    if core.len() == 0 {
        let mut one: Vec<char> = Vec::new();
        one.push(' ');
        assert(one@ =~= seq![' ']);
        return one;
    }
    let mut out: Vec<char> = Vec::new();
    if leading {
        out.push(' ');
    }
    push_chars(&mut out, &core);
    if trailing {
        out.push(' ');
    }
    proof {
        let l: Seq<char> = if leading { seq![' '] } else { seq![] };
        let t: Seq<char> = if trailing { seq![' '] } else { seq![] };
        assert(out@ =~= l + core@ + t);
    }
    out
}

// -- groups -----------------------------------------------------------------------

/// The positional argument groups among `nodes`: `\item{name}{text}` has two.
pub open spec fn groups_of(nodes: Seq<Node>) -> Seq<Seq<Node>>
    decreases nodes.len(),
{
    if nodes.len() == 0 {
        seq![]
    } else {
        groups_of(nodes.drop_last()) + match nodes.last() {
            Node::Group(c) => seq![c@],
            _ => seq![],
        }
    }
}

/// Where the argument groups are among `nodes`.
fn group_indices(nodes: &Vec<Node>) -> (r: Vec<usize>)
    ensures
        r@.len() == groups_of(nodes@).len(),
        forall|k: int|
            #![trigger r@[k]]
            0 <= k < r@.len() ==> r@[k] < nodes.len() && (nodes@[r@[k] as int] matches Node::Group(
                c,
            ) && c@ == groups_of(nodes@)[k]),
{
    let mut out: Vec<usize> = Vec::new();
    let mut i: usize = 0;
    while i < nodes.len()
        invariant
            i <= nodes.len(),
            out@.len() == groups_of(nodes@.subrange(0, i as int)).len(),
            forall|k: int|
                #![trigger out@[k]]
                0 <= k < out@.len() ==> out@[k] < i && (nodes@[out@[k] as int] matches Node::Group(
                    c,
                ) && c@ == groups_of(nodes@.subrange(0, i as int))[k]),
        decreases nodes.len() - i,
    {
        let ghost pre = nodes@.subrange(0, i as int);
        let ghost next = nodes@.subrange(0, i + 1);
        assert(next.drop_last() =~= pre);
        let ghost out0 = out@;
        match &nodes[i] {
            Node::Group(c) => {
                out.push(i);
                assert(groups_of(next) == groups_of(pre).push(c@));
                assert forall|k: int| #![trigger out@[k]] 0 <= k < out@.len() implies out@[k] < i + 1
                    && (nodes@[out@[k] as int] matches Node::Group(c2) && c2@ == groups_of(next)[k]) by {
                    if k < out0.len() {
                        assert(out@[k] == out0[k]);
                    }
                }
            },
            _ => {
                assert(groups_of(next) =~= groups_of(pre));
            },
        }
        i = i + 1;
    }
    assert(nodes@.subrange(0, i as int) =~= nodes@);
    out
}

/// The children of the `k`-th argument group.
fn group_at<'a>(nodes: &'a Vec<Node>, indices: &Vec<usize>, k: usize) -> (r: &'a Vec<Node>)
    requires
        k < indices@.len(),
        indices@[k as int] < nodes@.len(),
        nodes@[indices@[k as int] as int] is Group,
    ensures
        nodes@[indices@[k as int] as int] matches Node::Group(c) && r@ == c@,
{
    match &nodes[indices[k]] {
        Node::Group(c) => c,
        _ => {
            assert(false);
            nodes
        },
    }
}

/// `\eqn{latex}{ascii}` keeps the LaTeX form; the ASCII fallback is dropped.
pub open spec fn latex_spec(children: Seq<Node>) -> Seq<char> {
    let groups = groups_of(children);
    if groups.len() == 0 {
        trim(rd_plain(children))
    } else {
        trim(rd_plain(groups[0]))
    }
}

fn latex_of(children: &Vec<Node>) -> (r: String)
    ensures
        r@ == latex_spec(children@),
{
    let indices = group_indices(children);
    if indices.len() == 0 {
        trimmed_plain(children)
    } else {
        trimmed_plain(group_at(children, &indices, 0))
    }
}

/// The package of `\link[pkg]{topic}` or `\link[pkg:dest]{topic}`: the
/// option up to its first colon, if that is not empty.
pub open spec fn link_package(option: Seq<char>) -> Option<Seq<char>> {
    let o = trim(option);
    let p = o.subrange(0, crate::typst::html::find_from(o, ':', 0));
    if p.len() > 0 {
        Some(p)
    } else {
        None
    }
}

fn link_package_exec(option: &Vec<char>) -> (r: Option<String>)
    ensures
        match r {
            Some(p) => link_package(option@) == Some(p@),
            None => link_package(option@) is None,
        },
{
    let o = trim_chars(option);
    let k = crate::typst::html::find_exec(&o, ':', 0);
    proof {
        crate::typst::html::lemma_find_from(o@, ':', 0);
    }
    if k > 0 {
        Some(string_of(slice_chars(&o, 0, k).as_slice()))
    } else {
        None
    }
}

// -- inlines ----------------------------------------------------------------------

fn tag_is(tag: &String, name: &str) -> (r: bool)
    ensures
        r == (tag@ == name@),
{
    crate::text::str_eq(tag.as_str(), name)
}

fn text_of(value: &Vec<char>) -> (r: Inline)
    ensures
        crate::man::roff::is_text(r, value@),
{
    Inline::Text(string_of(value.as_slice()))
}

/// Where the `k`-th argument group of `ns[i..]` stands.
pub open spec fn kth_group(ns: Seq<Node>, k: int, i: int) -> Option<int>
    decreases ns.len() - i,
{
    if i < 0 || i >= ns.len() {
        None
    } else if ns[i] is Group {
        if k <= 0 {
            Some(i)
        } else {
            kth_group(ns, k - 1, i + 1)
        }
    } else {
        kth_group(ns, k, i + 1)
    }
}

pub proof fn lemma_kth_group(ns: Seq<Node>, k: int, i: int)
    requires
        0 <= i,
    ensures
        kth_group(ns, k, i) matches Some(j) ==> i <= j < ns.len() && ns[j] is Group,
    decreases ns.len() - i,
{
    if i < ns.len() {
        if ns[i] is Group {
            if k > 0 {
                lemma_kth_group(ns, k - 1, i + 1);
            }
        } else {
            lemma_kth_group(ns, k, i + 1);
        }
    }
}

/// The children of the `k`-th argument group of `ns`, if it has one.
pub open spec fn group_children(ns: Seq<Node>, k: int) -> Option<Seq<Node>> {
    match kth_group(ns, k, 0) {
        Some(j) => match ns[j] {
            Node::Group(c) => Some(c@),
            _ => None,
        },
        None => None,
    }
}

fn kth_group_exec<'a>(ns: &'a Vec<Node>, k: usize) -> (r: Option<&'a Vec<Node>>)
    ensures
        match r {
            Some(c) => group_children(ns@, k as int) == Some(c@) && (kth_group(ns@, k as int, 0) matches Some(j)
                && 0 <= j < ns@.len() && ns@[j] == Node::Group(*c)),
            None => group_children(ns@, k as int) is None && kth_group(ns@, k as int, 0) is None,
        },
{
    let mut i: usize = 0;
    let mut left: usize = k;
    proof {
        lemma_kth_group(ns@, k as int, 0);
    }
    while i < ns.len()
        invariant
            i <= ns@.len(),
            kth_group(ns@, k as int, 0) == kth_group(ns@, left as int, i as int),
        decreases ns@.len() - i,
    {
        match &ns[i] {
            Node::Group(c) => {
                if left == 0 {
                    return Some(c);
                }
                left = left - 1;
            },
            _ => {},
        }
        i = i + 1;
    }
    None
}

/// The inline content an Rd node stands for.
pub open spec fn rd_node(n: Node) -> Seq<InlineV>
    decreases n, 2nat,
{
    match n {
        Node::Text(t) => seq![InlineV::Text(collapse_spec(t@))],
        Node::RCode(c) => seq![InlineV::Code(c@)],
        Node::Verb(c) => seq![InlineV::Code(c@)],
        Node::Comment(_) => Seq::<InlineV>::empty(),
        Node::Raw => Seq::<InlineV>::empty(),
        Node::Group(c) => rd_inlines(c@),
        Node::Tagged { tag, option, children } => {
            let t = tag@;
            let cs = children@;
            if t == "\\code"@ || t == "\\samp"@ || t == "\\kbd"@ || t == "\\env"@ || t == "\\command"@
                || t == "\\option"@ || t == "\\file"@ || t == "\\var"@ {
                seq![InlineV::Code(rd_plain(cs))]
            } else if t == "\\emph"@ || t == "\\cite"@ || t == "\\dfn"@ {
                seq![InlineV::Emph(rd_inlines(cs))]
            } else if t == "\\strong"@ || t == "\\bold"@ {
                seq![InlineV::Strong(rd_inlines(cs))]
            } else if t == "\\pkg"@ || t == "\\acronym"@ || t == "\\abbr"@ {
                rd_inlines(cs)
            } else if t == "\\CRANpkg"@ {
                seq![
                    InlineV::Link {
                        dest: DestV::Url("https://CRAN.R-project.org/package="@ + rd_plain(cs)),
                        children: seq![InlineV::Code(rd_plain(cs))],
                    },
                ]
            } else if t == "\\sQuote"@ {
                seq![InlineV::Text("\u{2018}"@ + rd_plain(cs) + "\u{2019}"@)]
            } else if t == "\\dQuote"@ {
                seq![InlineV::Text("\u{201c}"@ + rd_plain(cs) + "\u{201d}"@)]
            } else if t == "\\url"@ {
                seq![InlineV::Link { dest: DestV::Url(rd_plain(cs)), children: Seq::<InlineV>::empty() }]
            } else if t == "\\email"@ {
                seq![InlineV::Link { dest: DestV::Email(rd_plain(cs)), children: Seq::<InlineV>::empty() }]
            } else if t == "\\doi"@ {
                seq![InlineV::Link { dest: DestV::Doi(rd_plain(cs)), children: Seq::<InlineV>::empty() }]
            } else if t == "\\href"@ {
                // `\href{url}{text}`
                match kth_group(cs, 0, 0) {
                    None => seq![InlineV::Link { dest: DestV::Url(rd_plain(cs)), children: Seq::<InlineV>::empty() }],
                    Some(a) => {
                        let url = match cs[a] {
                            Node::Group(c) => rd_plain(c@),
                            _ => Seq::<char>::empty(),
                        };
                        match kth_group(cs, 1, 0) {
                            None => seq![InlineV::Link { dest: DestV::Url(url), children: Seq::<InlineV>::empty() }],
                            Some(b) => {
                                proof {
                                    lemma_kth_group(cs, 1, 0);
                                }
                                match cs[b] {
                                    Node::Group(c) => seq![InlineV::Link { dest: DestV::Url(url), children: rd_inlines(c@) }],
                                    _ => Seq::<InlineV>::empty(),
                                }
                            },
                        }
                    },
                }
            } else if t == "\\link"@ || t == "\\linkS4class"@ {
                seq![
                    InlineV::Link {
                        dest: DestV::Topic {
                            package: match option {
                                Some(o) => link_package(rd_plain(o@)),
                                None => None,
                            },
                            topic: rd_plain(cs),
                        },
                        children: seq![InlineV::Code(rd_plain(cs))],
                    },
                ]
            } else if t == "\\eqn"@ {
                seq![InlineV::Math(latex_spec(cs))]
            } else if t == "\\verb"@ {
                seq![InlineV::Verb(rd_plain(cs))]
            } else if t == "\\dots"@ || t == "\\ldots"@ {
                seq![InlineV::Code("..."@)]
            } else if t == "\\sspace"@ {
                seq![InlineV::Text(" "@)]
            } else if t == "\\enc"@ {
                // `\enc{encoded}{ascii}`: prefer the encoded form.
                match kth_group(cs, 0, 0) {
                    None => rd_inlines(cs),
                    Some(a) => {
                        proof {
                            lemma_kth_group(cs, 0, 0);
                        }
                        match cs[a] {
                            Node::Group(c) => rd_inlines(c@),
                            _ => Seq::<InlineV>::empty(),
                        }
                    },
                }
            } else if t == "\\Sexpr"@ {
                seq![InlineV::Sexpr(rd_plain(cs))]
            } else if t == "\\if"@ || t == "\\ifelse"@ {
                // `\if{format}{then}`, `\ifelse{format}{then}{else}`
                match (kth_group(cs, 0, 0), kth_group(cs, 1, 0)) {
                    (Some(a), Some(b)) => {
                        proof {
                            lemma_kth_group(cs, 1, 0);
                            lemma_kth_group(cs, 2, 0);
                        }
                        let condition = match cs[a] {
                            Node::Group(c) => rd_plain(c@),
                            _ => Seq::<char>::empty(),
                        };
                        let then = match cs[b] {
                            Node::Group(c) => rd_inlines(c@),
                            _ => Seq::<InlineV>::empty(),
                        };
                        let otherwise = match kth_group(cs, 2, 0) {
                            Some(e) => match cs[e] {
                                Node::Group(c) => rd_inlines(c@),
                                _ => Seq::<InlineV>::empty(),
                            },
                            None => Seq::<InlineV>::empty(),
                        };
                        match target_spec(condition) {
                            Some(target) => seq![InlineV::Targeted { target, then, otherwise }],
                            None => then,
                        }
                    },
                    _ => rd_inlines(cs),
                }
            } else {
                // Unknown or structural: descend rather than drop.
                rd_inlines(cs)
            }
        },
    }
}

/// The inline content of a run of Rd nodes.
pub open spec fn rd_inlines(ns: Seq<Node>) -> Seq<InlineV>
    decreases ns, 1nat,
{
    if ns.len() == 0 {
        Seq::<InlineV>::empty()
    } else {
        rd_inlines(ns.drop_last()) + rd_node(ns.last())
    }
}

/// The inline content of `nodes[from..to]`, appended to `out`.
fn inlines_range(nodes: &Vec<Node>, from: usize, to: usize, out: &mut Vec<Inline>)
    requires
        from <= to <= nodes.len(),
    ensures
        inlines_v(final(out)@) == inlines_v(old(out)@) + rd_inlines(nodes@.subrange(from as int, to as int)),
    decreases nodes@, 0int,
{
    let ghost start = inlines_v(out@);
    let mut i = from;
    assert(nodes@.subrange(from as int, from as int) =~= Seq::<Node>::empty());
    assert(start + Seq::<InlineV>::empty() =~= start);
    while i < to
        invariant
            from <= i <= to <= nodes.len(),
            inlines_v(out@) == start + rd_inlines(nodes@.subrange(from as int, i as int)),
        decreases to - i,
    {
        proof {
            assert(decreases_to!(nodes@ => nodes@[i as int]));
        }
        inline_node(&nodes[i], out);
        let ghost pre = nodes@.subrange(from as int, i + 1);
        assert(pre.drop_last() =~= nodes@.subrange(from as int, i as int));
        assert(pre.last() == nodes@[i as int]);
        assert(inlines_v(out@) =~= start + rd_inlines(pre));
        i = i + 1;
    }
}

fn inlines(nodes: &Vec<Node>) -> (r: Vec<Inline>)
    ensures
        inlines_v(r@) == rd_inlines(nodes@),
    decreases nodes@, 1int,
{
    let mut out: Vec<Inline> = Vec::new();
    inlines_range(nodes, 0, nodes.len(), &mut out);
    assert(nodes@.subrange(0, nodes@.len() as int) =~= nodes@);
    assert(Seq::<InlineV>::empty() + rd_inlines(nodes@) =~= rd_inlines(nodes@));
    out
}

/// Push one inline onto a run.
fn push_inline(out: &mut Vec<Inline>, x: Inline)
    ensures
        inlines_v(final(out)@) == inlines_v(old(out)@) + seq![inline_v(x)],
{
    let ghost before = out@;
    out.push(x);
    proof {
        lemma_inlines_v_push(before, x);
        assert(inlines_v(before).push(inline_v(x)) =~= inlines_v(before) + seq![inline_v(x)]);
    }
}

/// Append a run onto a run.
fn append_inlines(out: &mut Vec<Inline>, more: Vec<Inline>)
    ensures
        inlines_v(final(out)@) == inlines_v(old(out)@) + inlines_v(more@),
{
    let ghost before = out@;
    let mut more = more;
    let ghost m = more@;
    out.append(&mut more);
    proof {
        lemma_inlines_v_concat(before, m);
    }
}

/// One node's inline content, appended to `out`.
fn inline_node(node: &Node, out: &mut Vec<Inline>)
    ensures
        inlines_v(final(out)@) == inlines_v(old(out)@) + rd_node(*node),
    decreases node, 2int,
{
    let ghost before = inlines_v(out@);
    match node {
        Node::Text(text) => push_inline(out, Inline::Text(string_of(collapse(&chars_of(text.as_str())).as_slice()))),
        Node::RCode(code) => push_inline(out, Inline::Code(string_of(chars_of(code.as_str()).as_slice()))),
        Node::Verb(code) => push_inline(out, Inline::Code(string_of(chars_of(code.as_str()).as_slice()))),
        Node::Comment(_) => {
            assert(before + Seq::<InlineV>::empty() =~= before);
        },
        Node::Raw => {
            assert(before + Seq::<InlineV>::empty() =~= before);
        },
        Node::Group(children) => {
            append_inlines(out, inlines(children));
        },
        Node::Tagged { tag, option, children } => {
            proof {
                assert(decreases_to!(node => children));
            }
            if tag_is(tag, "\\code") || tag_is(tag, "\\samp") || tag_is(tag, "\\kbd") || tag_is(
                tag,
                "\\env",
            ) || tag_is(tag, "\\command") || tag_is(tag, "\\option") || tag_is(tag, "\\file")
                || tag_is(tag, "\\var") {
                push_inline(out, Inline::Code(plain_string(children)));
            } else if tag_is(tag, "\\emph") || tag_is(tag, "\\cite") || tag_is(tag, "\\dfn") {
                push_inline(out, Inline::Emph(inlines(children)));
            } else if tag_is(tag, "\\strong") || tag_is(tag, "\\bold") {
                push_inline(out, Inline::Strong(inlines(children)));
            } else if tag_is(tag, "\\pkg") || tag_is(tag, "\\acronym") || tag_is(tag, "\\abbr") {
                append_inlines(out, inlines(children));
            } else if tag_is(tag, "\\CRANpkg") {
                let pkg = plain_text(children);
                let mut url = chars_of("https://CRAN.R-project.org/package=");
                push_chars(&mut url, &pkg);
                let mut text: Vec<Inline> = Vec::new();
                text.push(Inline::Code(string_of(pkg.as_slice())));
                proof {
                    lemma_inlines_v_push(Seq::<Inline>::empty(), text@[0]);
                    assert(Seq::<Inline>::empty().push(text@[0]) =~= text@);
                }
                push_inline(
                    out,
                    Inline::Link { dest: LinkDest::Url(string_of(url.as_slice())), children: text },
                );
            } else if tag_is(tag, "\\sQuote") {
                let mut t = chars_of("\u{2018}");
                push_chars(&mut t, &plain_text(children));
                push_str(&mut t, "\u{2019}");
                push_inline(out, Inline::Text(string_of(t.as_slice())));
            } else if tag_is(tag, "\\dQuote") {
                let mut t = chars_of("\u{201c}");
                push_chars(&mut t, &plain_text(children));
                push_str(&mut t, "\u{201d}");
                push_inline(out, Inline::Text(string_of(t.as_slice())));
            } else if tag_is(tag, "\\url") {
                push_inline(out, Inline::Link { dest: LinkDest::Url(plain_string(children)), children: Vec::new() });
            } else if tag_is(tag, "\\email") {
                push_inline(
                    out,
                    Inline::Link { dest: LinkDest::Email(plain_string(children)), children: Vec::new() },
                );
            } else if tag_is(tag, "\\doi") {
                push_inline(out, Inline::Link { dest: LinkDest::Doi(plain_string(children)), children: Vec::new() });
            } else if tag_is(tag, "\\href") {
                // `\href{url}{text}`
                match kth_group_exec(children, 0) {
                    None => push_inline(
                        out,
                        Inline::Link { dest: LinkDest::Url(plain_string(children)), children: Vec::new() },
                    ),
                    Some(first) => {
                        let url = plain_string(first);
                        match kth_group_exec(children, 1) {
                            None => push_inline(out, Inline::Link { dest: LinkDest::Url(url), children: Vec::new() }),
                            Some(second) => {
                                proof {
                                    let j = kth_group(children@, 1, 0)->0;
                                    assert(decreases_to!(children => children@));
                                    assert(decreases_to!(children@ => children@[j]));
                                    assert(decreases_to!(node => second@));
                                }
                                let text = inlines(second);
                                push_inline(out, Inline::Link { dest: LinkDest::Url(url), children: text });
                            },
                        }
                    },
                }
            } else if tag_is(tag, "\\link") || tag_is(tag, "\\linkS4class") {
                // `\link[pkg]{topic}` and `\link[pkg:dest]{topic}`
                let topic = plain_string(children);
                let package = match option {
                    Some(o) => link_package_exec(&plain_text(o)),
                    None => None,
                };
                let mut text: Vec<Inline> = Vec::new();
                text.push(Inline::Code(plain_string(children)));
                proof {
                    lemma_inlines_v_push(Seq::<Inline>::empty(), text@[0]);
                    assert(Seq::<Inline>::empty().push(text@[0]) =~= text@);
                }
                push_inline(out, Inline::Link { dest: LinkDest::Topic { package, topic }, children: text });
            } else if tag_is(tag, "\\eqn") {
                push_inline(out, Inline::Math(latex_of(children)));
            } else if tag_is(tag, "\\verb") {
                push_inline(out, Inline::Verb(plain_string(children)));
            } else if tag_is(tag, "\\dots") || tag_is(tag, "\\ldots") {
                push_inline(out, Inline::Code(owned("...")));
            } else if tag_is(tag, "\\sspace") {
                push_inline(out, Inline::Text(owned(" ")));
            } else if tag_is(tag, "\\enc") {
                // `\enc{encoded}{ascii}`: prefer the encoded form.
                match kth_group_exec(children, 0) {
                    None => append_inlines(out, inlines(children)),
                    Some(first) => {
                        proof {
                            let j = kth_group(children@, 0, 0)->0;
                            assert(decreases_to!(children => children@));
                            assert(decreases_to!(children@ => children@[j]));
                            assert(decreases_to!(node => first@));
                        }
                        append_inlines(out, inlines(first));
                    },
                }
            } else if tag_is(tag, "\\Sexpr") {
                push_inline(out, Inline::Sexpr(plain_string(children)));
            } else if tag_is(tag, "\\if") || tag_is(tag, "\\ifelse") {
                // `\if{format}{then}`, `\ifelse{format}{then}{else}`
                match (kth_group_exec(children, 0), kth_group_exec(children, 1)) {
                    (Some(format), Some(then_nodes)) => {
                        proof {
                            let j = kth_group(children@, 1, 0)->0;
                            assert(decreases_to!(children => children@));
                            assert(decreases_to!(children@ => children@[j]));
                            assert(decreases_to!(node => then_nodes@));
                        }
                        let then = inlines(then_nodes);
                        let otherwise = match kth_group_exec(children, 2) {
                            Some(else_nodes) => {
                                proof {
                                    let j = kth_group(children@, 2, 0)->0;
                                    assert(decreases_to!(children@ => children@[j]));
                                    assert(decreases_to!(node => else_nodes@));
                                }
                                inlines(else_nodes)
                            },
                            None => Vec::new(),
                        };
                        match target_of(&plain_text(format)) {
                            Some(target) => push_inline(out, Inline::Targeted { target, then, otherwise }),
                            None => append_inlines(out, then),
                        }
                    },
                    _ => append_inlines(out, inlines(children)),
                }
            } else {
                // Unknown or structural: descend rather than drop.
                append_inlines(out, inlines(children));
            }
        },
    }
}

/// The output formats a conditional names, one per comma-separated piece.
pub open spec fn names_format(formats: Seq<Seq<char>>, name: Seq<char>) -> bool {
    exists|k: int| 0 <= k < formats.len() && #[trigger] trim(formats[k]) == name
}

/// The target a format condition picks out: HTML alone, or print (`latex`,
/// `text`) alone. A condition naming every target, or none this writer
/// knows, is no reason to guard content, and picks out none.
pub open spec fn target_spec(condition: Seq<char>) -> Option<Target> {
    let formats = split_on(condition, ',');
    let html = names_format(formats, "html"@);
    let print = names_format(formats, "latex"@) || names_format(formats, "text"@);
    if html && !print {
        Some(Target::Html)
    } else if print && !html {
        Some(Target::Print)
    } else {
        None
    }
}

/// `s` split at each `c`.
pub open spec fn split_on(s: Seq<char>, c: char) -> Seq<Seq<char>>
    decreases s.len(),
{
    if s.len() == 0 {
        seq![Seq::<char>::empty()]
    } else {
        let rest = split_on(s.drop_last(), c);
        if s.last() == c {
            rest.push(Seq::<char>::empty())
        } else {
            rest.update(rest.len() - 1, rest.last().push(s.last()))
        }
    }
}

proof fn lemma_split_on_nonempty(s: Seq<char>, c: char)
    ensures
        split_on(s, c).len() >= 1,
    decreases s.len(),
{
    if s.len() > 0 {
        lemma_split_on_nonempty(s.drop_last(), c);
    }
}

fn split_on_exec(s: &Vec<char>, c: char) -> (r: Vec<Vec<char>>)
    ensures
        crate::text::char_views(r@) == split_on(s@, c),
{
    let mut out: Vec<Vec<char>> = Vec::new();
    out.push(Vec::new());
    let mut i: usize = 0;
    assert(s@.subrange(0, 0) =~= Seq::<char>::empty());
    assert(crate::text::char_views(out@) =~= seq![Seq::<char>::empty()]);
    while i < s.len()
        invariant
            i <= s@.len(),
            crate::text::char_views(out@) == split_on(s@.subrange(0, i as int), c),
            out@.len() >= 1,
        decreases s@.len() - i,
    {
        let ghost pre = s@.subrange(0, i as int + 1);
        assert(pre.drop_last() =~= s@.subrange(0, i as int));
        let ghost before = crate::text::char_views(out@);
        if s[i] == c {
            out.push(Vec::new());
            assert(crate::text::char_views(out@) =~= before.push(Seq::<char>::empty()));
        } else {
            let n = out.len();
            assert(before.last() == out@[n - 1]@);
            let mut last = crate::text::slice_chars(&out[n - 1], 0, out[n - 1].len());
            assert(last@ =~= before.last());
            last.push(s[i]);
            assert(last@ =~= before.last().push(s@[i as int]));
            out.set(n - 1, last);
            assert(crate::text::char_views(out@) =~= before.update(before.len() - 1, before.last().push(s@[i as int])));
        }
        i = i + 1;
    }
    assert(s@.subrange(0, s@.len() as int) =~= s@);
    out
}

fn names_format_exec(formats: &Vec<Vec<char>>, name: &str) -> (r: bool)
    ensures
        r == names_format(crate::text::char_views(formats@), name@),
{
    let ghost fs = crate::text::char_views(formats@);
    let target = chars_of(name);
    let mut k: usize = 0;
    while k < formats.len()
        invariant
            k <= formats@.len(),
            fs == crate::text::char_views(formats@),
            target@ == name@,
            forall|j: int| 0 <= j < k ==> #[trigger] trim(fs[j]) != name@,
        decreases formats@.len() - k,
    {
        let t = crate::text::trim_chars(&formats[k]);
        assert(fs[k as int] == formats@[k as int]@);
        assert(t@ == trim(fs[k as int]));
        if crate::text::seq_eq(&t, &target) {
            assert(trim(fs[k as int]) == name@);
            return true;
        }
        k = k + 1;
    }
    false
}

/// The target a format condition picks out, if any.
fn target_of(condition: &Vec<char>) -> (r: Option<Target>)
    ensures
        r == target_spec(condition@),
{
    let formats = split_on_exec(condition, ',');
    let html = names_format_exec(&formats, "html");
    let print = names_format_exec(&formats, "latex") || names_format_exec(&formats, "text");
    if html && !print {
        Some(Target::Html)
    } else if print && !html {
        Some(Target::Print)
    } else {
        None
    }
}

// -- blocks -----------------------------------------------------------------------

/// The pieces of `s[start..]` between blank lines (`"\n\n"`), scanning from
/// `j`.
pub open spec fn blank_from(s: Seq<char>, start: int, j: int) -> Seq<Seq<char>>
    decreases s.len() - j,
{
    if start < 0 || j < start || j >= s.len() {
        seq![s.subrange(start, s.len() as int)]
    } else if s[j] == '\n' && j + 1 < s.len() && s[j + 1] == '\n' {
        seq![s.subrange(start, j)] + blank_from(s, j + 2, j + 2)
    } else {
        blank_from(s, start, j + 1)
    }
}

/// `s` split at every blank line (`str::split("\n\n")`).
pub open spec fn blank_parts(s: Seq<char>) -> Seq<Seq<char>> {
    blank_from(s, 0, 0)
}

fn split_blank(text: &Vec<char>) -> (r: Vec<Vec<char>>)
    ensures
        char_views(r@) == blank_parts(text@),
{
    let mut parts: Vec<Vec<char>> = Vec::new();
    let mut start: usize = 0;
    let mut j: usize = 0;
    while j < text.len()
        invariant
            start <= j <= text@.len(),
            char_views(parts@) + blank_from(text@, start as int, j as int) == blank_parts(text@),
        decreases text@.len() - j,
    {
        if text[j] == '\n' && j + 1 < text.len() && text[j + 1] == '\n' {
            let ghost before = char_views(parts@);
            let piece = slice_chars(text, start, j);
            parts.push(piece);
            assert(char_views(parts@) =~= before.push(piece@));
            assert(before + blank_from(text@, start as int, j as int) =~= char_views(parts@)
                + blank_from(text@, j + 2, j + 2));
            j = j + 2;
            start = j;
        } else {
            j = j + 1;
        }
    }
    let ghost before = char_views(parts@);
    let piece = slice_chars(text, start, text.len());
    parts.push(piece);
    assert(char_views(parts@) =~= before + blank_from(text@, start as int, j as int));
    parts
}

/// Whether an inline is text with nothing but whitespace.
pub open spec fn is_blank_v(i: InlineV) -> bool {
    match i {
        InlineV::Text(t) => !has_non_ws(t),
        _ => false,
    }
}

/// A run without the blank text at its end.
pub open spec fn without_blank_tail(p: Seq<InlineV>) -> Seq<InlineV>
    decreases p.len(),
{
    if p.len() > 0 && is_blank_v(p.last()) {
        without_blank_tail(p.drop_last())
    } else {
        p
    }
}

/// The blocks once a pending run is closed as a paragraph, if anything
/// but blank text is left of it.
pub open spec fn flushed(out: Seq<BlockV>, p: Seq<InlineV>) -> Seq<BlockV> {
    let q = without_blank_tail(p);
    if q.len() == 0 {
        out
    } else {
        out.push(BlockV::Paragraph(q))
    }
}

/// Blocks so far, and the inline run of the paragraph being read.
pub type Reading = (Seq<BlockV>, Seq<InlineV>);

/// One blank-line-separated piece of a text node read into a paragraph:
/// its collapsed text joins the run (whitespace only where the run has
/// begun), and every piece but the last closes the paragraph.
pub open spec fn piece_step(st: Reading, piece: Seq<char>, last: bool) -> Reading {
    let c = collapse_spec(piece);
    let p = if c.len() > 0 && !(!has_non_ws(c) && st.1.len() == 0) {
        st.1.push(InlineV::Text(c))
    } else {
        st.1
    };
    if last {
        (st.0, p)
    } else {
        (flushed(st.0, p), Seq::<InlineV>::empty())
    }
}

/// The first `n` pieces of a text node read.
pub open spec fn pieces_read(st: Reading, pieces: Seq<Seq<char>>, n: int) -> Reading
    decreases n,
{
    if n <= 0 || n > pieces.len() {
        st
    } else {
        piece_step(pieces_read(st, pieces, n - 1), pieces[n - 1], n == pieces.len())
    }
}

/// `nodes[from..n]` read into blocks and a pending paragraph run.
pub open spec fn blocks_read(ns: Seq<Node>, from: int, n: int) -> Reading
    decreases ns, 3nat, n - from,
{
    if from < 0 || n <= from || n > ns.len() {
        (Seq::<BlockV>::empty(), Seq::<InlineV>::empty())
    } else {
        let st = blocks_read(ns, from, n - 1);
        let node = ns[n - 1];
        match rd_as_block(node) {
            Some(b) => (flushed(st.0, st.1).push(b), Seq::<InlineV>::empty()),
            None => match node {
                Node::Text(t) => pieces_read(st, blank_parts(t@), blank_parts(t@).len() as int),
                _ => (st.0, st.1 + rd_node(node)),
            },
        }
    }
}

/// The blocks of `nodes[from..to]`, inline runs grouped into paragraphs on
/// blank lines.
pub open spec fn rd_blocks_range(ns: Seq<Node>, from: int, to: int) -> Seq<BlockV>
    decreases ns, 3nat, to - from + 1,
{
    if from < 0 || to < from || to > ns.len() {
        Seq::<BlockV>::empty()
    } else {
        let st = blocks_read(ns, from, to);
        flushed(st.0, st.1)
    }
}

/// The blocks of a run of nodes.
pub open spec fn rd_blocks(ns: Seq<Node>) -> Seq<BlockV>
    decreases ns, 4nat, 0int,
{
    rd_blocks_range(ns, 0, ns.len() as int)
}

/// Whether a node is an `\item` marker.
pub open spec fn is_item_node(n: Node) -> bool {
    match n {
        Node::Tagged { tag, .. } => tag@ == "\\item"@,
        _ => false,
    }
}

/// Where the `\item` markers among `ns[..n]` stand.
pub open spec fn item_markers(ns: Seq<Node>, n: int) -> Seq<int>
    decreases n,
{
    if n <= 0 || n > ns.len() {
        Seq::<int>::empty()
    } else if is_item_node(ns[n - 1]) {
        item_markers(ns, n - 1).push(n - 1)
    } else {
        item_markers(ns, n - 1)
    }
}

proof fn lemma_item_markers(ns: Seq<Node>, n: int)
    requires
        0 <= n <= ns.len(),
    ensures
        forall|k: int| 0 <= k < item_markers(ns, n).len() ==> 0 <= #[trigger] item_markers(ns, n)[k] < n,
        forall|k: int, l: int| 0 <= k < l < item_markers(ns, n).len() ==> item_markers(ns, n)[k] < item_markers(ns, n)[l],
    decreases n,
{
    if n > 0 {
        lemma_item_markers(ns, n - 1);
        let prev = item_markers(ns, n - 1);
        let m = item_markers(ns, n);
        if is_item_node(ns[n - 1]) {
            assert(m == prev.push(n - 1));
            assert forall|k: int| 0 <= k < m.len() implies 0 <= #[trigger] m[k] < n by {
                if k < prev.len() {
                    assert(m[k] == prev[k]);
                }
            }
            assert forall|k: int, l: int| 0 <= k < l < m.len() implies m[k] < m[l] by {
                assert(m[k] == prev[k]);
                if l < prev.len() {
                    assert(m[l] == prev[l]);
                }
            }
        }
    }
}

/// The items of `\itemize`/`\enumerate` from the `k`-th marker on: each the
/// blocks after its marker, up to the next.
pub open spec fn items_from(ns: Seq<Node>, k: int) -> Seq<Seq<BlockV>>
    decreases ns, 4nat, item_markers(ns, ns.len() as int).len() - k,
{
    let markers = item_markers(ns, ns.len() as int);
    if k < 0 || k >= markers.len() {
        Seq::<Seq<BlockV>>::empty()
    } else {
        let end = if k + 1 < markers.len() {
            markers[k + 1]
        } else {
            ns.len() as int
        };
        seq![rd_blocks_range(ns, markers[k] + 1, end)] + items_from(ns, k + 1)
    }
}

/// The term entries among `ns[..n]`: each `\item{term}{body}`.
pub open spec fn terms_read(ns: Seq<Node>, n: int) -> Seq<TermV>
    decreases ns, 4nat, n,
{
    if n <= 0 || n > ns.len() {
        Seq::<TermV>::empty()
    } else {
        let before = terms_read(ns, n - 1);
        match ns[n - 1] {
            Node::Tagged { tag, children, .. } => if tag@ == "\\item"@ {
                match (kth_group(children@, 0, 0), kth_group(children@, 1, 0)) {
                    (Some(a), Some(b)) => {
                        proof {
                            lemma_kth_group(children@, 0, 0);
                            lemma_kth_group(children@, 1, 0);
                        }
                        match (children@[a], children@[b]) {
                            (Node::Group(t), Node::Group(d)) => before.push(
                                TermV { term: rd_inlines(t@), body: rd_blocks(d@) },
                            ),
                            _ => before,
                        }
                    },
                    _ => before,
                }
            } else {
                before
            },
            _ => before,
        }
    }
}

/// The block a node stands for, if it is a block-level construct.
pub open spec fn rd_as_block(node: Node) -> Option<BlockV>
    decreases node, 5nat, 0int,
{
    match node {
        Node::Tagged { tag, children, .. } => {
            let t = tag@;
            let cs = children@;
            if t == "\\itemize"@ {
                Some(BlockV::List { ordered: false, items: items_from(cs, 0) })
            } else if t == "\\enumerate"@ {
                Some(BlockV::List { ordered: true, items: items_from(cs, 0) })
            } else if t == "\\describe"@ {
                Some(BlockV::Terms(terms_read(cs, cs.len() as int)))
            } else if t == "\\preformatted"@ {
                Some(BlockV::Code { lang: None, value: crate::text::trim_end(rd_plain(cs)) })
            } else if t == "\\deqn"@ {
                Some(BlockV::DisplayMath(latex_spec(cs)))
            } else if t == "\\tabular"@ {
                Some(rd_table(cs))
            } else if t == "\\out"@ {
                Some(BlockV::Html(rd_plain(cs)))
            } else if t == "\\subsection"@ {
                match (kth_group(cs, 0, 0), kth_group(cs, 1, 0)) {
                    (Some(a), Some(_)) => {
                        proof {
                            lemma_kth_group(cs, 0, 0);
                        }
                        match cs[a] {
                            Node::Group(c) => Some(BlockV::Heading { level: 2, content: rd_inlines(c@) }),
                            _ => None,
                        }
                    },
                    _ => None,
                }
            } else {
                None
            }
        },
        _ => None,
    }
}

fn is_blank_text_inline(inline: &Inline) -> (r: bool)
    ensures
        r == is_blank_v(inline_v(*inline)),
{
    match inline {
        Inline::Text(t) => !has_non_ws_exec(&chars_of(t.as_str())),
        _ => false,
    }
}

fn flush_paragraph(out: &mut Vec<Block>, pending: &mut Vec<Inline>)
    ensures
        final(pending)@.len() == 0,
        blocks_v(final(out)@) == flushed(blocks_v(old(out)@), inlines_v(old(pending)@)),
{
    let ghost p0 = inlines_v(pending@);
    while pending.len() > 0 && is_blank_text_inline(&pending[pending.len() - 1])
        invariant
            without_blank_tail(p0) == without_blank_tail(inlines_v(pending@)),
            out@ == old(out)@,
        decreases pending.len(),
    {
        let ghost before = pending@;
        proof {
            lemma_inlines_v_push(before.drop_last(), before.last());
            assert(before.drop_last().push(before.last()) =~= before);
        }
        pending.pop();
        assert(pending@ =~= before.drop_last());
        assert(inlines_v(before).last() == inline_v(before.last()));
        assert(inlines_v(before).drop_last() =~= inlines_v(pending@));
    }
    proof {
        if pending@.len() > 0 {
            lemma_inlines_v_push(pending@.drop_last(), pending@.last());
            assert(pending@.drop_last().push(pending@.last()) =~= pending@);
        }
        crate::ir::inline::lemma_inlines_v_len(pending@);
    }
    assert(without_blank_tail(inlines_v(pending@)) == inlines_v(pending@));
    if pending.len() == 0 {
        return;
    }
    let mut taken: Vec<Inline> = Vec::new();
    std::mem::swap(&mut taken, pending);
    let ghost before = out@;
    out.push(Block::Paragraph(taken));
    proof {
        lemma_blocks_v_push(before, out@.last());
        assert(before.push(out@.last()) =~= out@);
    }
}

/// The blocks of `nodes[from..to]`, inline runs grouped into paragraphs on
/// blank lines.
fn blocks_range(nodes: &Vec<Node>, from: usize, to: usize) -> (r: Vec<Block>)
    requires
        from <= to <= nodes.len(),
    ensures
        blocks_v(r@) == rd_blocks_range(nodes@, from as int, to as int),
    decreases nodes@, 1int,
{
    let mut out: Vec<Block> = Vec::new();
    let mut pending: Vec<Inline> = Vec::new();
    let mut i = from;
    while i < to
        invariant
            from <= i <= to <= nodes.len(),
            (blocks_v(out@), inlines_v(pending@)) == blocks_read(nodes@, from as int, i as int),
        decreases to - i,
    {
        let node = &nodes[i];
        proof {
            assert(decreases_to!(nodes@ => nodes@[i as int]));
        }
        let ghost st = blocks_read(nodes@, from as int, i as int);
        assert(blocks_read(nodes@, from as int, i + 1) == match rd_as_block(*node) {
            Some(b) => (flushed(st.0, st.1).push(b), Seq::<InlineV>::empty()),
            None => match *node {
                Node::Text(t) => pieces_read(st, blank_parts(t@), blank_parts(t@).len() as int),
                _ => (st.0, st.1 + rd_node(*node)),
            },
        });
        match as_block(node) {
            Some(block) => {
                flush_paragraph(&mut out, &mut pending);
                let ghost before = out@;
                out.push(block);
                proof {
                    lemma_blocks_v_push(before, out@.last());
                    assert(before.push(out@.last()) =~= out@);
                    crate::ir::inline::lemma_inlines_v_len(pending@);
                    assert(inlines_v(pending@) =~= Seq::<InlineV>::empty());
                }
            },
            None => {
                match node {
                    Node::Text(text) => {
                        // A blank line ends the paragraph.
                        let parts = split_blank(&chars_of(text.as_str()));
                        let ghost pv = char_views(parts@);
                        let mut k: usize = 0;
                        while k < parts.len()
                            invariant
                                k <= parts@.len(),
                                pv == char_views(parts@),
                                pv == blank_parts(text@),
                                (blocks_v(out@), inlines_v(pending@)) == pieces_read(st, pv, k as int),
                            decreases parts@.len() - k,
                        {
                            let collapsed = collapse(&parts[k]);
                            assert(pv[k as int] == parts@[k as int]@);
                            let ghost s0 = pieces_read(st, pv, k as int);
                            proof {
                                crate::ir::inline::lemma_inlines_v_len(pending@);
                            }
                            // A separator between two inline nodes is worth one
                            // space; the same whitespace at the start of a
                            // paragraph is not.
                            if collapsed.len() > 0 && !(!has_non_ws_exec(&collapsed) && pending.len() == 0) {
                                let ghost before = pending@;
                                pending.push(Inline::Text(string_of(collapsed.as_slice())));
                                proof {
                                    lemma_inlines_v_push(before, pending@.last());
                                    assert(before.push(pending@.last()) =~= pending@);
                                }
                            }
                            if k + 1 < parts.len() {
                                flush_paragraph(&mut out, &mut pending);
                                proof {
                                    crate::ir::inline::lemma_inlines_v_len(pending@);
                                    assert(inlines_v(pending@) =~= Seq::<InlineV>::empty());
                                }
                            }
                            k = k + 1;
                        }
                    },
                    _ => {
                        inline_node(node, &mut pending);
                    },
                }
            },
        }
        i = i + 1;
    }
    flush_paragraph(&mut out, &mut pending);
    out
}

fn blocks(nodes: &Vec<Node>) -> (r: Vec<Block>)
    ensures
        blocks_v(r@) == rd_blocks(nodes@),
    decreases nodes@, 2int,
{
    blocks_range(nodes, 0, nodes.len())
}

/// A block-level Rd construct, or `None` if the node is inline.
fn as_block(node: &Node) -> (r: Option<Block>)
    ensures
        match r {
            Some(b) => rd_as_block(*node) == Some(block_v(b)),
            None => rd_as_block(*node) is None,
        },
    decreases node, 3int,
{
    match node {
        Node::Tagged { tag, children, .. } => {
            proof {
                assert(decreases_to!(node => children@));
            }
            if tag_is(tag, "\\itemize") {
                Some(Block::List { ordered: false, items: list_items(children) })
            } else if tag_is(tag, "\\enumerate") {
                Some(Block::List { ordered: true, items: list_items(children) })
            } else if tag_is(tag, "\\describe") {
                Some(Block::Terms(terms(children)))
            } else if tag_is(tag, "\\preformatted") {
                let value = trim_end_chars(&plain_text(children));
                Some(Block::Code { lang: None, value: string_of(value.as_slice()) })
            } else if tag_is(tag, "\\deqn") {
                Some(Block::DisplayMath(latex_of(children)))
            } else if tag_is(tag, "\\tabular") {
                Some(table(children))
            } else if tag_is(tag, "\\out") {
                Some(Block::Html(plain_string(children)))
            } else if tag_is(tag, "\\subsection") {
                match (kth_group_exec(children, 0), kth_group_exec(children, 1)) {
                    (Some(first), Some(_)) => {
                        proof {
                            let j = kth_group(children@, 0, 0)->0;
                            assert(decreases_to!(children@ => children@[j]));
                            assert(decreases_to!(node => first@));
                        }
                        // Rendered as a heading; the body blocks are not kept,
                        // since the IR has no nested-section block.
                        Some(Block::Heading { level: 2, content: inlines(first) })
                    },
                    _ => None,
                }
            } else {
                None
            }
        },
        _ => None,
    }
}

fn is_item(node: &Node) -> (r: bool)
    ensures
        r == is_item_node(*node),
{
    match node {
        Node::Tagged { tag, .. } => tag_is(tag, "\\item"),
        _ => false,
    }
}

/// Split `\itemize`/`\enumerate` children into items.
///
/// Unlike `\describe` and `\arguments`, `\item` here is a zero-arity marker:
/// the item's content follows it as siblings, up to the next marker.
/// Content before the first marker is not part of any item.
fn list_items(nodes: &Vec<Node>) -> (r: Vec<Vec<Block>>)
    ensures
        items_v(r@) == items_from(nodes@, 0),
    decreases nodes@, 3int,
{
    let mut markers: Vec<usize> = Vec::new();
    let mut i: usize = 0;
    while i < nodes.len()
        invariant
            i <= nodes.len(),
            markers@.len() == item_markers(nodes@, i as int).len(),
            forall|k: int| 0 <= k < markers@.len() ==> #[trigger] markers@[k] == item_markers(nodes@, i as int)[k],
        decreases nodes.len() - i,
    {
        if is_item(&nodes[i]) {
            markers.push(i);
        }
        i = i + 1;
    }
    let ghost ms = item_markers(nodes@, nodes@.len() as int);
    proof {
        lemma_item_markers(nodes@, nodes@.len() as int);
    }
    let mut items: Vec<Vec<Block>> = Vec::new();
    let mut k: usize = 0;
    assert(items_v(items@) + items_from(nodes@, 0) =~= items_from(nodes@, 0));
    while k < markers.len()
        invariant
            k <= markers@.len(),
            markers@.len() == ms.len(),
            forall|j: int| 0 <= j < markers@.len() ==> #[trigger] markers@[j] == ms[j],
            forall|j: int| 0 <= j < ms.len() ==> 0 <= #[trigger] ms[j] < nodes@.len(),
            forall|j: int, l: int| 0 <= j < l < ms.len() ==> ms[j] < ms[l],
            ms == item_markers(nodes@, nodes@.len() as int),
            items_v(items@) + items_from(nodes@, k as int) == items_from(nodes@, 0),
        decreases markers.len() - k,
    {
        assert(markers@[k as int] == ms[k as int]);
        assert(0 <= ms[k as int] < nodes@.len());
        assert(markers[k as int] < nodes.len());
        let start = markers[k] + 1;
        let end = if k + 1 < markers.len() {
            markers[k + 1]
        } else {
            nodes.len()
        };
        let item = blocks_range(nodes, start, end);
        let ghost before = items@;
        items.push(item);
        assert(items@.drop_last() =~= before);
        assert(items_v(items@) + items_from(nodes@, k + 1) =~= items_v(before) + items_from(nodes@, k as int));
        k = k + 1;
    }
    assert(items_v(items@) + Seq::<Seq<BlockV>>::empty() =~= items_v(items@));
    items
}

fn terms(nodes: &Vec<Node>) -> (r: Vec<Term>)
    ensures
        terms_v(r@) == terms_read(nodes@, nodes@.len() as int),
    decreases nodes@, 3int,
{
    let mut out: Vec<Term> = Vec::new();
    let mut i: usize = 0;
    while i < nodes.len()
        invariant
            i <= nodes.len(),
            terms_v(out@) == terms_read(nodes@, i as int),
        decreases nodes.len() - i,
    {
        let ghost before = out@;
        match &nodes[i] {
            Node::Tagged { tag, children, .. } => {
                if tag_is(tag, "\\item") {
                    match (kth_group_exec(children, 0), kth_group_exec(children, 1)) {
                        (Some(first), Some(second)) => {
                            proof {
                                let a = kth_group(children@, 0, 0)->0;
                                let b = kth_group(children@, 1, 0)->0;
                                assert(decreases_to!(nodes@ => nodes@[i as int]));
                                assert(decreases_to!(nodes@[i as int] => children));
                                assert(decreases_to!(children@ => children@[a]));
                                assert(decreases_to!(children@ => children@[b]));
                                assert(decreases_to!(nodes@ => first@));
                                assert(decreases_to!(nodes@ => second@));
                            }
                            out.push(Term { term: inlines(first), body: blocks(second) });
                            assert(out@.drop_last() =~= before);
                        },
                        _ => {},
                    }
                }
            },
            _ => {},
        }
        i = i + 1;
    }
    out
}

// -- tables -------------------------------------------------------------------------

/// The alignment a column letter asks for.
pub open spec fn align_spec(c: char) -> Option<Align> {
    if c == 'l' {
        Some(Align::Left)
    } else if c == 'c' {
        Some(Align::Center)
    } else if c == 'r' {
        Some(Align::Right)
    } else {
        None
    }
}

/// The alignments a column spec's letters ask for, unknown letters skipped.
pub open spec fn aligns(s: Seq<char>) -> Seq<Align>
    decreases s.len(),
{
    if s.len() == 0 {
        Seq::<Align>::empty()
    } else {
        match align_spec(s.last()) {
            Some(a) => aligns(s.drop_last()).push(a),
            None => aligns(s.drop_last()),
        }
    }
}

/// A column spec made only of the letters `l`, `c` and `r` gives one
/// alignment per letter, in order: `l` left, `c` centred, `r` right.
pub proof fn law_column_letters_align(s: Seq<char>)
    requires
        forall|i: int| 0 <= i < s.len() ==> s[i] == 'l' || s[i] == 'c' || s[i] == 'r',
    ensures
        aligns(s).len() == s.len(),
        forall|i: int|
            0 <= i < s.len() ==> (s[i] == 'l' <==> #[trigger] aligns(s)[i] == Align::Left) && (s[i] == 'c'
                <==> aligns(s)[i] == Align::Center) && (s[i] == 'r' <==> aligns(s)[i] == Align::Right),
    decreases s.len(),
{
    if s.len() > 0 {
        let front = s.drop_last();
        assert forall|i: int| 0 <= i < front.len() implies front[i] == 'l' || front[i] == 'c' || front[i] == 'r' by {
            assert(front[i] == s[i]);
        }
        law_column_letters_align(front);
        assert forall|i: int|
            0 <= i < s.len() implies (s[i] == 'l' <==> #[trigger] aligns(s)[i] == Align::Left) && (s[i] == 'c'
                <==> aligns(s)[i] == Align::Center) && (s[i] == 'r' <==> aligns(s)[i] == Align::Right) by {
            if i < s.len() - 1 {
                assert(front[i] == s[i]);
                assert(aligns(s)[i] == aligns(front)[i]);
            }
        }
    }
}

fn align_of(c: char) -> (r: Option<Align>)
    ensures
        r == align_spec(c),
{
    if c == 'l' {
        Some(Align::Left)
    } else if c == 'c' {
        Some(Align::Center)
    } else if c == 'r' {
        Some(Align::Right)
    } else {
        None
    }
}

/// Whether a node is `\tab` or `\cr`, by its tag.
pub open spec fn tag_named(n: Node, name: Seq<char>) -> bool {
    match n {
        Node::Tagged { tag, .. } => tag@ == name,
        _ => false,
    }
}

/// Rows finished, the row being filled, and where its current cell began.
pub type Rows = (Seq<Seq<Seq<InlineV>>>, Seq<Seq<InlineV>>, int);

/// `cells[..n]` split into rows at `\cr` and cells at `\tab`.
pub open spec fn rows_read(cells: Seq<Node>, n: int) -> Rows
    decreases n,
{
    if n <= 0 || n > cells.len() {
        (Seq::empty(), Seq::empty(), 0)
    } else {
        let (rows, row, start) = rows_read(cells, n - 1);
        let i = n - 1;
        let tab = tag_named(cells[i], "\\tab"@);
        let cr = tag_named(cells[i], "\\cr"@);
        if tab || cr {
            let row2 = row.push(rd_inlines(cells.subrange(start, i)));
            if cr {
                (rows.push(row2), Seq::empty(), i + 1)
            } else {
                (rows, row2, i + 1)
            }
        } else {
            (rows, row, start)
        }
    }
}

/// Whether a row has a cell with content.
pub open spec fn any_content(row: Seq<Seq<InlineV>>) -> bool {
    exists|k: int| 0 <= k < row.len() && (#[trigger] row[k]).len() > 0
}

/// The rows of `rows[..n]` that have a cell with content.
pub open spec fn rows_kept(rows: Seq<Seq<Seq<InlineV>>>, n: int) -> Seq<Seq<Seq<InlineV>>>
    decreases n,
{
    if n <= 0 || n > rows.len() {
        Seq::empty()
    } else if any_content(rows[n - 1]) {
        rows_kept(rows, n - 1).push(rows[n - 1])
    } else {
        rows_kept(rows, n - 1)
    }
}

/// The rows of a table's cells: the cells after the last `\tab` or `\cr`
/// make a last cell, a partly filled row is kept, and rows with no content
/// (a trailing `\cr` makes one) are dropped.
pub open spec fn table_rows_spec(cells: Seq<Node>) -> Seq<Seq<Seq<InlineV>>> {
    let (rows, row, start) = rows_read(cells, cells.len() as int);
    let row2 = if start < cells.len() {
        row.push(rd_inlines(cells.subrange(start, cells.len() as int)))
    } else {
        row
    };
    let rows2 = if row2.len() > 0 {
        rows.push(row2)
    } else {
        rows
    };
    rows_kept(rows2, rows2.len() as int)
}

/// `\tabular{lcr}{ a \tab b \cr ... }`: both the column spec and the cells
/// arrive as positional groups.
pub open spec fn rd_table(ns: Seq<Node>) -> BlockV {
    let spec = match group_children(ns, 0) {
        Some(c) => rd_plain(c),
        None => Seq::<char>::empty(),
    };
    let cells = match group_children(ns, 1) {
        Some(c) => c,
        None => ns,
    };
    BlockV::Table { align: aligns(trim(spec)), rows: table_rows_spec(cells) }
}

proof fn lemma_rows_read_start(cells: Seq<Node>, n: int)
    requires
        0 <= n <= cells.len(),
    ensures
        0 <= rows_read(cells, n).2 <= n,
    decreases n,
{
    if n > 0 {
        lemma_rows_read_start(cells, n - 1);
    }
}

fn any_nonempty(row: &Vec<Vec<Inline>>) -> (r: bool)
    ensures
        r == any_content(cells_v(row@)),
{
    let ghost cv = cells_v(row@);
    proof {
        lemma_cells_v(row@);
    }
    let mut i: usize = 0;
    while i < row.len()
        invariant
            i <= row@.len(),
            cv == cells_v(row@),
            cv.len() == row@.len(),
            forall|k: int| 0 <= k < row@.len() ==> #[trigger] cv[k] == inlines_v(row@[k]@),
            forall|k: int| 0 <= k < i ==> (#[trigger] cv[k]).len() == 0,
        decreases row@.len() - i,
    {
        proof {
            crate::ir::inline::lemma_inlines_v_len(row@[i as int]@);
        }
        assert(cv[i as int] == inlines_v(row@[i as int]@));
        if row[i].len() > 0 {
            return true;
        }
        i = i + 1;
    }
    false
}

proof fn lemma_cells_v(s: Seq<Vec<Inline>>)
    ensures
        cells_v(s).len() == s.len(),
        forall|k: int| 0 <= k < s.len() ==> #[trigger] cells_v(s)[k] == inlines_v(s[k]@),
    decreases s.len(),
{
    if s.len() > 0 {
        lemma_cells_v(s.drop_last());
        assert forall|k: int| 0 <= k < s.len() implies #[trigger] cells_v(s)[k] == inlines_v(s[k]@) by {
            if k < s.len() - 1 {
                assert(s.drop_last()[k] == s[k]);
            }
        }
    }
}

proof fn lemma_rows_v(s: Seq<Vec<Vec<Inline>>>)
    ensures
        rows_v(s).len() == s.len(),
        forall|k: int| 0 <= k < s.len() ==> #[trigger] rows_v(s)[k] == cells_v(s[k]@),
    decreases s.len(),
{
    if s.len() > 0 {
        lemma_rows_v(s.drop_last());
        assert forall|k: int| 0 <= k < s.len() implies #[trigger] rows_v(s)[k] == cells_v(s[k]@) by {
            if k < s.len() - 1 {
                assert(s.drop_last()[k] == s[k]);
            }
        }
    }
}

fn table_rows(cells: &Vec<Node>) -> (r: Vec<Vec<Vec<Inline>>>)
    ensures
        rows_v(r@) == table_rows_spec(cells@),
    decreases cells@, 0int,
{
    let mut rows: Vec<Vec<Vec<Inline>>> = Vec::new();
    let mut row: Vec<Vec<Inline>> = Vec::new();
    let mut start: usize = 0;
    let mut i: usize = 0;
    while i < cells.len()
        invariant
            start <= i <= cells.len(),
            rows_read(cells@, i as int) == (rows_v(rows@), cells_v(row@), start as int),
        decreases cells.len() - i,
    {
        proof {
            lemma_rows_read_start(cells@, i as int);
        }
        let (tab, cr) = match &cells[i] {
            Node::Tagged { tag, .. } => (tag_is(tag, "\\tab"), tag_is(tag, "\\cr")),
            _ => (false, false),
        };
        if tab || cr {
            let mut cell: Vec<Inline> = Vec::new();
            inlines_range(cells, start, i, &mut cell);
            assert(Seq::<InlineV>::empty() + rd_inlines(cells@.subrange(start as int, i as int)) =~= rd_inlines(cells@.subrange(start as int, i as int)));
            let ghost row0 = row@;
            row.push(cell);
            assert(row@.drop_last() =~= row0);
            start = i + 1;
            if cr {
                let mut taken: Vec<Vec<Inline>> = Vec::new();
                std::mem::swap(&mut taken, &mut row);
                let ghost rows0 = rows@;
                rows.push(taken);
                assert(rows@.drop_last() =~= rows0);
                assert(cells_v(row@) =~= Seq::<Seq<InlineV>>::empty());
            }
        }
        i = i + 1;
    }
    if start < cells.len() {
        let mut cell: Vec<Inline> = Vec::new();
        inlines_range(cells, start, cells.len(), &mut cell);
        assert(Seq::<InlineV>::empty() + rd_inlines(cells@.subrange(start as int, cells@.len() as int)) =~= rd_inlines(cells@.subrange(start as int, cells@.len() as int)));
        let ghost row0 = row@;
        row.push(cell);
        assert(row@.drop_last() =~= row0);
    }
    proof {
        lemma_cells_v(row@);
    }
    if row.len() > 0 {
        let ghost rows0 = rows@;
        rows.push(row);
        assert(rows@.drop_last() =~= rows0);
    }
    let ghost all = rows_v(rows@);
    proof {
        lemma_rows_v(rows@);
    }
    // A trailing `\cr` produces a final empty row.
    let mut kept: Vec<Vec<Vec<Inline>>> = Vec::new();
    let mut rest = rows;
    let ghost total = rest@;
    assert(total.subrange(0, 0) =~= Seq::<Vec<Vec<Inline>>>::empty());
    while rest.len() > 0
        invariant
            rest@.len() <= total.len(),
            rest@ == total.subrange(total.len() - rest@.len(), total.len() as int),
            all == rows_v(total),
            all.len() == total.len(),
            forall|k: int| 0 <= k < total.len() ==> #[trigger] all[k] == cells_v(total[k]@),
            rows_v(kept@) == rows_kept(all, total.len() - rest@.len()),
        decreases rest@.len(),
    {
        let ghost done = total.len() - rest@.len();
        let r = rest.remove(0);
        assert(r == total[done]);
        assert(rest@ =~= total.subrange(done + 1, total.len() as int));
        if any_nonempty(&r) {
            let ghost k0 = kept@;
            kept.push(r);
            assert(kept@.drop_last() =~= k0);
        }
    }
    kept
}

/// `\tabular{lcr}{ a \tab b \cr ... }`
///
/// Both the column spec and the cells arrive as positional groups, not as a
/// tag option.
fn table(nodes: &Vec<Node>) -> (r: Block)
    ensures
        block_v(r) == rd_table(nodes@),
    decreases nodes@, 3int,
{
    let spec = match kth_group_exec(nodes, 0) {
        Some(first) => plain_text(first),
        None => Vec::new(),
    };
    let spec = trim_chars(&spec);
    let mut align: Vec<Align> = Vec::new();
    let mut i: usize = 0;
    while i < spec.len()
        invariant
            i <= spec@.len(),
            align@ == aligns(spec@.subrange(0, i as int)),
        decreases spec@.len() - i,
    {
        let ghost pre = spec@.subrange(0, i + 1);
        assert(pre.drop_last() =~= spec@.subrange(0, i as int));
        match align_of(spec[i]) {
            Some(a) => align.push(a),
            None => {},
        }
        i = i + 1;
    }
    assert(spec@.subrange(0, spec@.len() as int) =~= spec@);
    let rows = match kth_group_exec(nodes, 1) {
        Some(cells) => {
            proof {
                let j = kth_group(nodes@, 1, 0)->0;
                assert(decreases_to!(nodes@ => nodes@[j]));
                assert(decreases_to!(nodes@ => cells@));
            }
            table_rows(cells)
        },
        None => table_rows(nodes),
    };
    Block::Table { align, rows }
}

// -- arguments and examples -------------------------------------------------------

/// The names an `\item{x, y}` documents: the comma-separated pieces of its
/// first group, trimmed, empty ones dropped.
pub open spec fn item_names(group: Seq<Node>) -> Seq<Seq<char>> {
    crate::man::names::nonempty(crate::man::names::trimmed_pieces(rd_plain(group), ',', 0))
}

/// What `\arguments` documents among `ns[..n]`: for each `\item{names}{text}`,
/// its names and the blocks of its text.
pub open spec fn params_read(ns: Seq<Node>, n: int) -> Seq<(Seq<Seq<char>>, Seq<BlockV>)>
    decreases n,
{
    if n <= 0 || n > ns.len() {
        Seq::empty()
    } else {
        let before = params_read(ns, n - 1);
        match ns[n - 1] {
            Node::Tagged { tag, children, .. } => if tag@ == "\\item"@ {
                match (group_children(children@, 0), group_children(children@, 1)) {
                    (Some(a), Some(b)) => before.push((item_names(a), rd_blocks(b))),
                    _ => before,
                }
            } else {
                before
            },
            _ => before,
        }
    }
}

/// Whether `p` documents `names` with `body`, and nothing else.
pub open spec fn param_is(p: Param, names: Seq<Seq<char>>, body: Seq<BlockV>) -> bool {
    &&& views(p.names@) == names
    &&& p.ty is None
    &&& p.default is None
    &&& !p.optional
    &&& blocks_v(p.body@) == body
}

/// Whether `ps` are the parameters `expected` describes, one for one.
pub open spec fn params_are(ps: Seq<Param>, expected: Seq<(Seq<Seq<char>>, Seq<BlockV>)>) -> bool {
    ps.len() == expected.len() && forall|k: int|
        0 <= k < ps.len() ==> param_is(#[trigger] ps[k], expected[k].0, expected[k].1)
}

/// `\arguments{ \item{name}{description} ... }`
fn params(nodes: &Vec<Node>) -> (r: Vec<Param>)
    ensures
        params_are(r@, params_read(nodes@, nodes@.len() as int)),
{
    let mut out: Vec<Param> = Vec::new();
    let mut i: usize = 0;
    while i < nodes.len()
        invariant
            i <= nodes.len(),
            params_are(out@, params_read(nodes@, i as int)),
        decreases nodes.len() - i,
    {
        match &nodes[i] {
            Node::Tagged { tag, children, .. } => {
                if tag_is(tag, "\\item") {
                    match (kth_group_exec(children, 0), kth_group_exec(children, 1)) {
                        (Some(first), Some(second)) => {
                            let text = plain_text(first);
                            let pieces = crate::man::names::trimmed_pieces_exec(&text, ',');
                            let names = crate::man::names::nonempty_exec(pieces);
                            let strings = crate::man::fields::strings_of(names);
                            let ghost before = out@;
                            out.push(
                                Param {
                                    names: strings,
                                    ty: None,
                                    default: None,
                                    optional: false,
                                    body: blocks(second),
                                },
                            );
                            assert forall|m: int| 0 <= m < out@.len() implies param_is(#[trigger] out@[m], params_read(nodes@, i + 1)[m].0, params_read(nodes@, i + 1)[m].1) by {
                                if m < before.len() {
                                    assert(out@[m] == before[m]);
                                }
                            }
                        },
                        _ => {},
                    }
                }
            },
            _ => {},
        }
        i = i + 1;
    }
    out
}

/// The examples so far, and the runnable code not yet closed into one.
pub type ExampleReading = (Seq<(Seq<char>, bool)>, Seq<char>);

/// Close the runnable code read so far into an example, if any is left of
/// it once trimmed.
pub open spec fn close_example(out: Seq<(Seq<char>, bool)>, buffer: Seq<char>, run: bool) -> Seq<(Seq<char>, bool)> {
    if trim(buffer).len() > 0 {
        out.push((trim(buffer), run))
    } else {
        out
    }
}

/// Whether a tag marks example code not to be run.
pub open spec fn guarded_tag(t: Seq<char>) -> bool {
    t == "\\dontrun"@ || t == "\\donttest"@ || t == "\\dontshow"@ || t == "\\testonly"@
}

/// One node of an `\examples` section read after `state`: runnable code
/// accumulates, and a guarded block with code in it closes what precedes it
/// and becomes an example not to be run.
pub open spec fn example_step(state: ExampleReading, node: Node) -> ExampleReading {
    let (out, buffer) = state;
    match node {
        Node::Tagged { tag, children, .. } => if guarded_tag(tag@) {
            let code = rd_plain(children@);
            if has_non_ws(code) {
                (close_example(out, buffer, true).push((trim(code), false)), Seq::empty())
            } else {
                (out, buffer)
            }
        } else {
            (out, buffer + rd_plain_node(node))
        },
        _ => (out, buffer + rd_plain_node(node)),
    }
}

/// `ns[..n]` of an `\examples` section read, node by node.
pub open spec fn examples_read(ns: Seq<Node>, n: int) -> ExampleReading
    decreases n,
{
    if n <= 0 || n > ns.len() {
        (Seq::empty(), Seq::empty())
    } else {
        example_step(examples_read(ns, n - 1), ns[n - 1])
    }
}

/// The examples of an `\examples` section, in order.
pub open spec fn examples_spec(ns: Seq<Node>) -> Seq<(Seq<char>, bool)> {
    let (out, buffer) = examples_read(ns, ns.len() as int);
    close_example(out, buffer, true)
}

fn push_example(out: &mut Vec<Example>, buffer: &mut Vec<char>, run: bool)
    ensures
        final(buffer)@.len() == 0,
        examples_v(final(out)@) == close_example(examples_v(old(out)@), old(buffer)@, run),
{
    let code = trim_chars(buffer);
    if code.len() > 0 {
        let ghost before = out@;
        out.push(Example { code: string_of(code.as_slice()), run });
        assert(examples_v(out@) =~= examples_v(before).push((trim(old(buffer)@), run)));
    }
    buffer.clear();
}

fn is_guarded(tag: &String) -> (r: bool)
    ensures
        r == guarded_tag(tag@),
{
    tag_is(tag, "\\dontrun") || tag_is(tag, "\\donttest") || tag_is(tag, "\\dontshow") || tag_is(
        tag,
        "\\testonly",
    )
}

fn examples(nodes: &Vec<Node>) -> (r: Vec<Example>)
    ensures
        examples_v(r@) == examples_spec(nodes@),
{
    let mut out: Vec<Example> = Vec::new();
    let mut runnable: Vec<char> = Vec::new();
    let mut i: usize = 0;
    assert(examples_v(out@) =~= Seq::<(Seq<char>, bool)>::empty());
    while i < nodes.len()
        invariant
            i <= nodes.len(),
            (examples_v(out@), runnable@) == examples_read(nodes@, i as int),
        decreases nodes.len() - i,
    {
        let node = &nodes[i];
        let ghost state = (examples_v(out@), runnable@);
        let guarded = match node {
            Node::Tagged { tag, .. } => is_guarded(tag),
            _ => false,
        };
        if guarded {
            match node {
                Node::Tagged { children, .. } => {
                    let code = plain_text(children);
                    if has_non_ws_exec(&code) {
                        // Flush what precedes so example order is preserved.
                        push_example(&mut out, &mut runnable, true);
                        let ghost before = out@;
                        out.push(Example { code: string_of(trim_chars(&code).as_slice()), run: false });
                        assert(examples_v(out@) =~= examples_v(before).push((trim(code@), false)));
                        assert(runnable@ =~= Seq::<char>::empty());
                    }
                },
                _ => {},
            }
        } else {
            push_plain_node(node, &mut runnable);
        }
        assert((examples_v(out@), runnable@) == example_step(state, nodes@[i as int]));
        i = i + 1;
    }
    push_example(&mut out, &mut runnable, true);
    out
}

// -- the topic --------------------------------------------------------------------

/// The trimmed text of a top-level `name` macro node, if `node` is one.
pub open spec fn tagged_text(node: Node, name: Seq<char>) -> Option<Seq<char>> {
    match node {
        Node::Tagged { tag, children, .. } => if tag@ == name {
            Some(trim(rd_plain(children@)))
        } else {
            None
        },
        _ => None,
    }
}

/// The topic's name: the last `\name` among the first `n` nodes.
pub open spec fn name_of(nodes: Seq<Node>, n: int) -> Seq<char>
    decreases n,
{
    if n <= 0 {
        seq![]
    } else {
        match tagged_text(nodes[n - 1], "\\name"@) {
            Some(t) => t,
            None => name_of(nodes, n - 1),
        }
    }
}

/// The text of every `name` macro among the first `n` nodes, in order.
pub open spec fn all_of(nodes: Seq<Node>, name: Seq<char>, n: int) -> Seq<Seq<char>>
    decreases n,
{
    if n <= 0 {
        seq![]
    } else {
        match tagged_text(nodes[n - 1], name) {
            Some(t) => all_of(nodes, name, n - 1).push(t),
            None => all_of(nodes, name, n - 1),
        }
    }
}

/// `\keyword` and `\concept` texts among the first `n` nodes, in order.
pub open spec fn keywords_of(nodes: Seq<Node>, n: int) -> Seq<Seq<char>>
    decreases n,
{
    if n <= 0 {
        seq![]
    } else {
        match tagged_text(nodes[n - 1], "\\keyword"@) {
            Some(t) => keywords_of(nodes, n - 1).push(t),
            None => match tagged_text(nodes[n - 1], "\\concept"@) {
                Some(t) => keywords_of(nodes, n - 1).push(t),
                None => keywords_of(nodes, n - 1),
            },
        }
    }
}

/// The signature: the last non-empty `\usage` among the first `n` nodes.
pub open spec fn usage_of(nodes: Seq<Node>, n: int) -> Option<Seq<char>>
    decreases n,
{
    if n <= 0 {
        None
    } else {
        match tagged_text(nodes[n - 1], "\\usage"@) {
            Some(t) => if t.len() > 0 {
                Some(t)
            } else {
                usage_of(nodes, n - 1)
            },
            None => usage_of(nodes, n - 1),
        }
    }
}

proof fn lemma_field_tags_distinct()
    ensures
        "\\name"@ != "\\alias"@,
        "\\name"@ != "\\keyword"@,
        "\\name"@ != "\\concept"@,
        "\\name"@ != "\\usage"@,
        "\\alias"@ != "\\keyword"@,
        "\\alias"@ != "\\concept"@,
        "\\alias"@ != "\\usage"@,
        "\\keyword"@ != "\\concept"@,
        "\\keyword"@ != "\\usage"@,
        "\\concept"@ != "\\usage"@,
{
    reveal_strlit("\\alias");
    reveal_strlit("\\keyword");
    reveal_strlit("\\concept");
    reveal_strlit("\\name");
    reveal_strlit("\\usage");
    assert("\\name"@.len() == 5);
    assert("\\alias"@.len() == 6 && "\\alias"@[1] == 'a');
    assert("\\usage"@.len() == 6 && "\\usage"@[1] == 'u');
    assert("\\keyword"@.len() == 8 && "\\keyword"@[1] == 'k');
    assert("\\concept"@.len() == 8 && "\\concept"@[1] == 'c');
}

/// The fields of a topic that hold names and plain text: `\name`,
/// `\alias`, `\keyword`, `\concept`, `\usage`.
fn name_fields(node: &Node, topic: &mut Topic)
    ensures
        same_prose(*final(topic), *old(topic)),
        final(topic).name@ == match tagged_text(*node, "\\name"@) {
            Some(t) => t,
            None => old(topic).name@,
        },
        views(final(topic).aliases@) == match tagged_text(*node, "\\alias"@) {
            Some(t) => views(old(topic).aliases@).push(t),
            None => views(old(topic).aliases@),
        },
        views(final(topic).keywords@) == match tagged_text(*node, "\\keyword"@) {
            Some(t) => views(old(topic).keywords@).push(t),
            None => match tagged_text(*node, "\\concept"@) {
                Some(t) => views(old(topic).keywords@).push(t),
                None => views(old(topic).keywords@),
            },
        },
        match tagged_text(*node, "\\usage"@) {
            Some(u) => if u.len() > 0 {
                final(topic).signature matches Some(s) && s@ == u
            } else {
                final(topic).signature == old(topic).signature
            },
            None => final(topic).signature == old(topic).signature,
        },
        final(topic).lang == old(topic).lang,
        final(topic).raises == old(topic).raises,
{
    proof {
        lemma_field_tags_distinct();
    }
    let ghost a0 = topic.aliases@;
    let ghost k0 = topic.keywords@;
    match node {
        Node::Tagged { tag, children, .. } => {
            if tag_is(tag, "\\name") {
                topic.name = trimmed_plain(children);

            } else if tag_is(tag, "\\alias") {
                topic.aliases.push(trimmed_plain(children));
                assert(views(topic.aliases@) =~= views(a0).push(trim(rd_plain(children@))));

            } else if tag_is(tag, "\\keyword") || tag_is(tag, "\\concept") {
                topic.keywords.push(trimmed_plain(children));
                assert(views(topic.keywords@) =~= views(k0).push(trim(rd_plain(children@))));
            } else if tag_is(tag, "\\usage") {
                let code = trim_chars(&plain_text(children));
                if code.len() > 0 {
                    topic.signature = Some(string_of(code.as_slice()));
                }
            }
        },
        _ => {},
    }
}

/// The fields of a topic that hold prose: everything but names and usage.
fn prose_fields(node: &Node, topic: &mut Topic)
    ensures
        match title_in(*node) {
            Some(t) => inlines_v(final(topic).title@) == t,
            None => final(topic).title == old(topic).title,
        },
        prose_step(old(topic).description, final(topic).description, *node, RdField::Description),
        prose_step(old(topic).details, final(topic).details, *node, RdField::Details),
        prose_step(old(topic).value, final(topic).value, *node, RdField::Value),
        prose_step(old(topic).note, final(topic).note, *node, RdField::Note),
        prose_step(old(topic).author, final(topic).author, *node, RdField::Author),
        prose_step(old(topic).references, final(topic).references, *node, RdField::References),
        prose_step(old(topic).seealso, final(topic).seealso, *node, RdField::SeeAlso),
        match field_children(*node, RdField::Arguments) {
            Some(c) => params_are(final(topic).params@, params_read(c, c.len() as int)),
            None => final(topic).params == old(topic).params,
        },
        match field_children(*node, RdField::Examples) {
            Some(c) => examples_v(final(topic).examples@) == examples_spec(c),
            None => final(topic).examples == old(topic).examples,
        },
        sections_v(final(topic).sections@) == match section_in(*node) {
            Some(x) => sections_v(old(topic).sections@).push(x),
            None => sections_v(old(topic).sections@),
        },
        final(topic).name == old(topic).name,
        final(topic).aliases == old(topic).aliases,
        final(topic).keywords == old(topic).keywords,
        final(topic).signature == old(topic).signature,
        final(topic).lang == old(topic).lang,
        final(topic).raises == old(topic).raises,
{
    let ghost s0 = topic.sections@;
    match node {
        Node::Tagged { tag, children, .. } => {
            if tag_is(tag, "\\title") {
                topic.title = inlines(children);
            } else if tag_is(tag, "\\description") {
                topic.description = blocks(children);
            } else if tag_is(tag, "\\details") {
                topic.details = blocks(children);
            } else if tag_is(tag, "\\value") {
                topic.value = blocks(children);
            } else if tag_is(tag, "\\note") {
                topic.note = blocks(children);
            } else if tag_is(tag, "\\author") {
                topic.author = blocks(children);
            } else if tag_is(tag, "\\references") {
                topic.references = blocks(children);
            } else if tag_is(tag, "\\seealso") {
                topic.seealso = blocks(children);
            } else if tag_is(tag, "\\arguments") {
                topic.params = params(children);
            } else if tag_is(tag, "\\examples") {
                topic.examples = examples(children);
            } else if tag_is(tag, "\\section") {
                // `\section{title}{body}`: the title is the first group, the
                // body the second.
                let parts = group_indices(children);
                if parts.len() >= 2 {
                    let title = inlines(group_at(children, &parts, 0));
                    let body = blocks(group_at(children, &parts, 1));
                    topic.sections.push(Section { title, body });
                    assert(sections_v(topic.sections@) =~= sections_v(s0).push(
                        section_in(*node)->0,
                    ));
                }
            } else if tag_is(tag, "\\format") || tag_is(tag, "\\source") {
                let mut title: Vec<Inline> = Vec::new();
                title.push(
                    Inline::Text(
                        if tag_is(tag, "\\format") {
                            owned("Format")
                        } else {
                            owned("Source")
                        },
                    ),
                );
                proof {
                    lemma_inlines_v_push(Seq::empty(), title@[0]);
                    assert(title@ =~= Seq::<Inline>::empty().push(title@[0]));
                }
                topic.sections.push(Section { title, body: blocks(children) });
                assert(sections_v(topic.sections@) =~= sections_v(s0).push(section_in(*node)->0));
            }
        },
        _ => {},
    }
}

/// The parts of a topic that a top-level Rd macro fills, beyond names and
/// usage.
pub enum RdField {
    Title,
    Description,
    Details,
    Value,
    Note,
    Author,
    References,
    SeeAlso,
    Arguments,
    Examples,
    Section,
    Format,
    Source,
}

/// The part of a topic a top-level macro with tag `t` fills, if any.
pub open spec fn rd_field(t: Seq<char>) -> Option<RdField> {
    if t == "\\title"@ {
        Some(RdField::Title)
    } else if t == "\\description"@ {
        Some(RdField::Description)
    } else if t == "\\details"@ {
        Some(RdField::Details)
    } else if t == "\\value"@ {
        Some(RdField::Value)
    } else if t == "\\note"@ {
        Some(RdField::Note)
    } else if t == "\\author"@ {
        Some(RdField::Author)
    } else if t == "\\references"@ {
        Some(RdField::References)
    } else if t == "\\seealso"@ {
        Some(RdField::SeeAlso)
    } else if t == "\\arguments"@ {
        Some(RdField::Arguments)
    } else if t == "\\examples"@ {
        Some(RdField::Examples)
    } else if t == "\\section"@ {
        Some(RdField::Section)
    } else if t == "\\format"@ {
        Some(RdField::Format)
    } else if t == "\\source"@ {
        Some(RdField::Source)
    } else {
        None
    }
}

/// The children of `node` if it is the macro that fills `f`.
pub open spec fn field_children(node: Node, f: RdField) -> Option<Seq<Node>> {
    match node {
        Node::Tagged { tag, children, .. } => if rd_field(tag@) == Some(f) {
            Some(children@)
        } else {
            None
        },
        _ => None,
    }
}

/// The children of the last macro among the first `n` nodes that fills `f`.
pub open spec fn last_children(nodes: Seq<Node>, f: RdField, n: int) -> Option<Seq<Node>>
    decreases n,
{
    if n <= 0 || n > nodes.len() {
        None
    } else {
        match field_children(nodes[n - 1], f) {
            Some(c) => Some(c),
            None => last_children(nodes, f, n - 1),
        }
    }
}

/// The blocks of a prose part filled by the first `n` nodes: those of the
/// last macro that fills it, or none.
pub open spec fn prose_of(nodes: Seq<Node>, f: RdField, n: int) -> Seq<BlockV> {
    match last_children(nodes, f, n) {
        Some(c) => rd_blocks(c),
        None => Seq::empty(),
    }
}

/// The parameters the first `n` nodes document: those of the last
/// `\arguments`, or none.
pub open spec fn params_of(nodes: Seq<Node>, n: int) -> Seq<(Seq<Seq<char>>, Seq<BlockV>)> {
    match last_children(nodes, RdField::Arguments, n) {
        Some(c) => params_read(c, c.len() as int),
        None => Seq::empty(),
    }
}

/// The examples of the first `n` nodes: those of the last `\examples`, or
/// none.
pub open spec fn examples_of(nodes: Seq<Node>, n: int) -> Seq<(Seq<char>, bool)> {
    match last_children(nodes, RdField::Examples, n) {
        Some(c) => examples_spec(c),
        None => Seq::empty(),
    }
}

/// The section a node adds: `\section{title}{body}` with both groups,
/// `\format{body}` and `\source{body}` under a title of their own.
pub open spec fn section_in(node: Node) -> Option<SectionV> {
    match node {
        Node::Tagged { tag, children, .. } => match rd_field(tag@) {
            Some(RdField::Section) => if groups_of(children@).len() >= 2 {
                Some((rd_inlines(groups_of(children@)[0]), rd_blocks(groups_of(children@)[1])))
            } else {
                None
            },
            Some(RdField::Format) => Some((seq![InlineV::Text("Format"@)], rd_blocks(children@))),
            Some(RdField::Source) => Some((seq![InlineV::Text("Source"@)], rd_blocks(children@))),
            _ => None,
        },
        _ => None,
    }
}

/// The sections the first `n` nodes add, in order.
pub open spec fn sections_of(nodes: Seq<Node>, n: int) -> Seq<SectionV>
    decreases n,
{
    if n <= 0 || n > nodes.len() {
        Seq::empty()
    } else {
        match section_in(nodes[n - 1]) {
            Some(x) => sections_of(nodes, n - 1).push(x),
            None => sections_of(nodes, n - 1),
        }
    }
}

/// Whether `a` and `b` agree on the parts of a topic that hold prose.
pub open spec fn same_prose(a: Topic, b: Topic) -> bool {
    &&& a.title == b.title
    &&& a.description == b.description
    &&& a.details == b.details
    &&& a.value == b.value
    &&& a.note == b.note
    &&& a.author == b.author
    &&& a.references == b.references
    &&& a.seealso == b.seealso
    &&& a.params == b.params
    &&& a.examples == b.examples
    &&& a.sections == b.sections
}

/// What a node does to a part of a topic that holds blocks: the macro that
/// fills `f` replaces them, any other leaves them.
pub open spec fn prose_step(before: Vec<Block>, after: Vec<Block>, node: Node, f: RdField) -> bool {
    match field_children(node, f) {
        Some(c) => blocks_v(after@) == rd_blocks(c),
        None => after == before,
    }
}

/// The title a node sets: the inline content of `\title`.
pub open spec fn title_in(node: Node) -> Option<Seq<InlineV>> {
    match node {
        Node::Tagged { tag, children, .. } => if tag@ == "\\title"@ {
            Some(rd_inlines(children@))
        } else {
            None
        },
        _ => None,
    }
}

/// The title the first `n` nodes set: the last `\title`'s, or none.
pub open spec fn title_of(nodes: Seq<Node>, n: int) -> Seq<InlineV>
    decreases n,
{
    if n <= 0 || n > nodes.len() {
        Seq::<InlineV>::empty()
    } else {
        match title_in(nodes[n - 1]) {
            Some(t) => t,
            None => title_of(nodes, n - 1),
        }
    }
}

/// Whether `t` is the topic Rd nodes document: the parts a single macro
/// fills from the last such macro, aliases, keywords and sections from all
/// of them, in order.
pub open spec fn rd_topic(t: Topic, nodes: Seq<Node>) -> bool {
    &&& inlines_v(t.title@) == title_of(nodes, nodes.len() as int)
    &&& t.name@ == name_of(nodes, nodes.len() as int)
    &&& views(t.aliases@) == all_of(nodes, "\\alias"@, nodes.len() as int)
    &&& views(t.keywords@) == keywords_of(nodes, nodes.len() as int)
    &&& match usage_of(nodes, nodes.len() as int) {
        Some(u) => t.signature matches Some(s) && s@ == u,
        None => t.signature is None,
    }
    &&& t.lang matches Some(l) && l@ == "r"@
    &&& t.raises@.len() == 0
    &&& blocks_v(t.description@) == prose_of(nodes, RdField::Description, nodes.len() as int)
    &&& blocks_v(t.details@) == prose_of(nodes, RdField::Details, nodes.len() as int)
    &&& blocks_v(t.value@) == prose_of(nodes, RdField::Value, nodes.len() as int)
    &&& blocks_v(t.note@) == prose_of(nodes, RdField::Note, nodes.len() as int)
    &&& blocks_v(t.author@) == prose_of(nodes, RdField::Author, nodes.len() as int)
    &&& blocks_v(t.references@) == prose_of(nodes, RdField::References, nodes.len() as int)
    &&& blocks_v(t.seealso@) == prose_of(nodes, RdField::SeeAlso, nodes.len() as int)
    &&& params_are(t.params@, params_of(nodes, nodes.len() as int))
    &&& examples_v(t.examples@) == examples_of(nodes, nodes.len() as int)
    &&& sections_v(t.sections@) == sections_of(nodes, nodes.len() as int)
}

/// Convert an already-parsed Rd document to a [`Topic`].
pub fn from_document(document: &Document) -> (r: Topic)
    ensures
        rd_topic(r, document.nodes@),
{
    let nodes = &document.nodes;
    let mut topic = Topic::default();
    topic.lang = Some(owned("r"));
    assert(examples_v(topic.examples@) =~= Seq::<(Seq<char>, bool)>::empty());
    assert(sections_v(topic.sections@) =~= Seq::<SectionV>::empty());
    let mut i: usize = 0;
    while i < nodes.len()
        invariant
            i <= nodes.len(),
            nodes == &document.nodes,
            topic.name@ == name_of(nodes@, i as int),
            views(topic.aliases@) == all_of(nodes@, "\\alias"@, i as int),
            views(topic.keywords@) == keywords_of(nodes@, i as int),
            match usage_of(nodes@, i as int) {
                Some(u) => topic.signature matches Some(s) && s@ == u,
                None => topic.signature is None,
            },
            topic.lang matches Some(l) && l@ == "r"@,
            topic.raises@.len() == 0,
            inlines_v(topic.title@) == title_of(nodes@, i as int),
            blocks_v(topic.description@) == prose_of(nodes@, RdField::Description, i as int),
            blocks_v(topic.details@) == prose_of(nodes@, RdField::Details, i as int),
            blocks_v(topic.value@) == prose_of(nodes@, RdField::Value, i as int),
            blocks_v(topic.note@) == prose_of(nodes@, RdField::Note, i as int),
            blocks_v(topic.author@) == prose_of(nodes@, RdField::Author, i as int),
            blocks_v(topic.references@) == prose_of(nodes@, RdField::References, i as int),
            blocks_v(topic.seealso@) == prose_of(nodes@, RdField::SeeAlso, i as int),
            params_are(topic.params@, params_of(nodes@, i as int)),
            examples_v(topic.examples@) == examples_of(nodes@, i as int),
            sections_v(topic.sections@) == sections_of(nodes@, i as int),
        decreases nodes.len() - i,
    {
        name_fields(&nodes[i], &mut topic);
        prose_fields(&nodes[i], &mut topic);
        i = i + 1;
    }
    topic
}

} // verus!
