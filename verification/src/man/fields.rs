//! What a section's blocks become in a topic: OPTIONS terms become
//! parameters, an EXAMPLES section of nothing but code becomes examples, and
//! `ls(1)` in SEE ALSO becomes a cross-reference.

use vstd::prelude::*;

use crate::ir::inline::plain_text;
use crate::ir::{Block, Example, Inline, LinkDest, Param, Term};
use crate::man::names::{option_names_exec, page_name, page_name_exec, section_prefix, section_prefix_exec, option_names};
use crate::man::roff::views;
use crate::text::{chars_of, char_views, string_of, trim_start, trim_start_chars};

verus! {

broadcast use vstd::std_specs::vec::axiom_vec_decreases_to_view;

// -- parameters -------------------------------------------------------------------

/// The `.TP` terms among `bs`, groups flattened, in order.
pub open spec fn terms_in(bs: Seq<Block>) -> Seq<Term>
    decreases bs,
{
    if bs.len() == 0 {
        seq![]
    } else {
        terms_in(bs.subrange(0, bs.len() - 1)) + match bs[bs.len() - 1] {
            Block::Terms(ts) => ts@,
            Block::Group(inner) => terms_in(inner@),
            _ => seq![],
        }
    }
}

/// The blocks among `bs` that are not terms, groups flattened, in order.
pub open spec fn rest_in(bs: Seq<Block>) -> Seq<Block>
    decreases bs,
{
    if bs.len() == 0 {
        seq![]
    } else {
        rest_in(bs.subrange(0, bs.len() - 1)) + match bs[bs.len() - 1] {
            Block::Terms(_) => seq![],
            Block::Group(inner) => rest_in(inner@),
            other => seq![other],
        }
    }
}

/// `p` is the parameter an option term documents: its names read from the
/// tag, its body the term's body.
pub open spec fn param_is(p: Param, t: Term) -> bool {
    &&& views(p.names@) == option_names(plain_text(t.term@))
    &&& p.body == t.body
    &&& p.ty is None
    &&& p.default is None
    &&& !p.optional
}

/// `ps` are the parameters the terms `ts` document, one each, in order.
pub open spec fn params_are(ps: Seq<Param>, ts: Seq<Term>) -> bool {
    ps.len() == ts.len() && forall|k: int| 0 <= k < ts.len() ==> #[trigger] param_is(ps[k], ts[k])
}

pub proof fn lemma_params_concat(a: Seq<Param>, ta: Seq<Term>, b: Seq<Param>, tb: Seq<Term>)
    requires
        params_are(a, ta),
        params_are(b, tb),
    ensures
        params_are(a + b, ta + tb),
{
    assert forall|k: int| 0 <= k < (ta + tb).len() implies #[trigger] param_is(
        (a + b)[k],
        (ta + tb)[k],
    ) by {
        if k < ta.len() {
            assert(param_is(a[k], ta[k]));
        } else {
            assert(param_is(b[k - ta.len()], tb[k - ta.len()]));
        }
    }
}

pub(crate) fn strings_of(v: Vec<Vec<char>>) -> (r: Vec<String>)
    ensures
        views(r@) == char_views(v@),
{
    let mut out: Vec<String> = Vec::new();
    let mut i: usize = 0;
    while i < v.len()
        invariant
            i <= v.len(),
            views(out@) == char_views(v@.subrange(0, i as int)),
        decreases v.len() - i,
    {
        let ghost before = out@;
        out.push(string_of(v[i].as_slice()));
        assert(views(out@) =~= views(before).push(v@[i as int]@));
        assert(char_views(v@.subrange(0, i + 1)) =~= char_views(v@.subrange(0, i as int)).push(
            v@[i as int]@,
        ));
        i = i + 1;
    }
    assert(v@.subrange(0, v.len() as int) =~= v@);
    out
}

/// The parameter an option term documents.
pub(crate) fn param_of(term: Term) -> (r: Param)
    ensures
        param_is(r, term),
{
    let text = chars_of(crate::ir::to_plain_text(&term.term).as_str());
    let names = strings_of(option_names_exec(&text));
    Param { names, ty: None, default: None, optional: false, body: term.body }
}

fn params_of_terms(terms: Vec<Term>) -> (r: Vec<Param>)
    ensures
        params_are(r@, terms@),
{
    let ghost ts = terms@;
    let mut rest = terms;
    let mut out: Vec<Param> = Vec::new();
    let n = rest.len();
    let mut i: usize = 0;
    while rest.len() > 0
        invariant
            i + rest@.len() == ts.len(),
            ts.len() == n,
            rest@ == ts.subrange(i as int, ts.len() as int),
            params_are(out@, ts.subrange(0, i as int)),
        decreases rest.len(),
    {
        let term = rest.remove(0);
        let ghost before = out@;
        out.push(param_of(term));
        proof {
            assert(ts.subrange(0, i + 1) =~= ts.subrange(0, i as int).push(ts[i as int]));
            assert(param_is(out@[i as int], ts[i as int]));
            assert forall|k: int| 0 <= k < i + 1 implies #[trigger] param_is(
                out@[k],
                ts.subrange(0, i + 1)[k],
            ) by {
                if k < i {
                    assert(out@[k] == before[k]);
                    assert(param_is(before[k], ts.subrange(0, i as int)[k]));
                }
            }
        }
        i = i + 1;
        assert(rest@ =~= ts.subrange(i as int, ts.len() as int));
    }
    assert(ts.subrange(0, i as int) =~= ts);
    out
}

/// The terms of an OPTIONS section become parameters; anything else in it
/// stays a block.
pub(crate) fn split_params(blocks: Vec<Block>) -> (r: (Vec<Param>, Vec<Block>))
    ensures
        params_are(r.0@, terms_in(blocks@)),
        r.1@ == rest_in(blocks@),
{
    let ghost bs = blocks@;
    split_params_in(blocks, Ghost(bs))
}

fn split_params_in(blocks: Vec<Block>, Ghost(bs): Ghost<Seq<Block>>) -> (r: (Vec<Param>, Vec<Block>))
    requires
        blocks@ == bs,
    ensures
        params_are(r.0@, terms_in(bs)),
        r.1@ == rest_in(bs),
    decreases bs,
{
    let mut remaining = blocks;
    let mut params: Vec<Param> = Vec::new();
    let mut rest: Vec<Block> = Vec::new();
    let n = remaining.len();
    let mut i: usize = 0;
    assert(bs.subrange(0, 0) =~= Seq::<Block>::empty());
    while remaining.len() > 0
        invariant
            i + remaining@.len() == bs.len(),
            bs.len() == n,
            remaining@ == bs.subrange(i as int, bs.len() as int),
            params_are(params@, terms_in(bs.subrange(0, i as int))),
            rest@ == rest_in(bs.subrange(0, i as int)),
        decreases remaining.len(),
    {
        let block = remaining.remove(0);
        assert(block == bs[i as int]);
        let ghost pre = bs.subrange(0, i as int);
        let ghost next = bs.subrange(0, i + 1);
        assert(next.subrange(0, next.len() - 1) =~= pre);
        assert(next[next.len() - 1] == block);
        let ghost params0 = params@;
        match block {
            Block::Terms(terms) => {
                let ghost ts = terms@;
                let mut more = params_of_terms(terms);
                let ghost added = more@;
                params.append(&mut more);
                proof {
                    lemma_params_concat(params0, terms_in(pre), added, ts);
                    assert(rest_in(next) =~= rest_in(pre));
                }
            },
            Block::Group(inner) => {
                let ghost inner_view = inner@;
                proof {
                    assert(decreases_to!(bs => bs[i as int]));
                    assert(decreases_to!(bs[i as int] => inner));
                    assert(decreases_to!(inner => inner@));
                    assert(decreases_to!(bs => inner@));
                }
                let (mut inner_params, mut inner_rest) = split_params_in(inner, Ghost(inner_view));
                let ghost added = inner_params@;
                params.append(&mut inner_params);
                rest.append(&mut inner_rest);
                proof {
                    lemma_params_concat(params0, terms_in(pre), added, terms_in(inner_view));
                }
            },
            other => {
                rest.push(other);
                proof {
                    assert(terms_in(next) =~= terms_in(pre));
                }
            },
        }
        i = i + 1;
        assert(remaining@ =~= bs.subrange(i as int, bs.len() as int));
    }
    assert(bs.subrange(0, i as int) =~= bs);
    (params, rest)
}

// -- examples ---------------------------------------------------------------------

/// The code of `bs`, groups flattened, if `bs` is nothing but code; a group
/// must itself hold some.
pub open spec fn codes_of(bs: Seq<Block>) -> Option<Seq<Seq<char>>>
    decreases bs,
{
    if bs.len() == 0 {
        Some(seq![])
    } else {
        match codes_of(bs.subrange(0, bs.len() - 1)) {
            None => None,
            Some(acc) => match bs[bs.len() - 1] {
                Block::Code { value, .. } => Some(acc.push(value@)),
                Block::Group(inner) => match codes_of(inner@) {
                    Some(c) => if c.len() > 0 {
                        Some(acc + c)
                    } else {
                        None
                    },
                    None => None,
                },
                _ => None,
            },
        }
    }
}

/// The examples of a section that holds nothing but code, and some.
pub open spec fn all_code_spec(bs: Seq<Block>) -> Option<Seq<Seq<char>>> {
    match codes_of(bs) {
        Some(c) => if c.len() > 0 {
            Some(c)
        } else {
            None
        },
        None => None,
    }
}

/// `ex` are runnable examples with exactly the code `codes`.
pub open spec fn examples_are(ex: Seq<Example>, codes: Seq<Seq<char>>) -> bool {
    ex.len() == codes.len() && forall|k: int|
        #![trigger ex[k]]
        0 <= k < ex.len() ==> ex[k].code@ == codes[k] && ex[k].run
}

proof fn lemma_codes_prefix_none(bs: Seq<Block>, j: int)
    requires
        0 <= j <= bs.len(),
        codes_of(bs.subrange(0, j)) is None,
    ensures
        codes_of(bs) is None,
    decreases bs.len(),
{
    if j == bs.len() {
        assert(bs.subrange(0, j) =~= bs);
    } else {
        let p = bs.subrange(0, bs.len() - 1);
        assert(p.subrange(0, j) =~= bs.subrange(0, j));
        lemma_codes_prefix_none(p, j);
    }
}

fn codes_in(blocks: &Vec<Block>, Ghost(bs): Ghost<Seq<Block>>) -> (r: Option<Vec<Example>>)
    requires
        blocks@ == bs,
    ensures
        match r {
            Some(ex) => codes_of(bs) matches Some(c) && examples_are(ex@, c),
            None => codes_of(bs) is None,
        },
    decreases bs,
{
    let mut out: Vec<Example> = Vec::new();
    let mut i: usize = 0;
    assert(bs.subrange(0, 0) =~= Seq::<Block>::empty());
    while i < blocks.len()
        invariant
            i <= blocks.len(),
            blocks@ == bs,
            codes_of(bs.subrange(0, i as int)) matches Some(c) && examples_are(out@, c),
        decreases blocks.len() - i,
    {
        let ghost pre = bs.subrange(0, i as int);
        let ghost next = bs.subrange(0, i + 1);
        assert(next.subrange(0, next.len() - 1) =~= pre);
        let ghost c0 = codes_of(pre)->0;
        let ghost out0 = out@;
        match &blocks[i] {
            Block::Code { value, .. } => {
                let code = string_of(chars_of(value.as_str()).as_slice());
                out.push(Example { code, run: true });
                assert(examples_are(out@, c0.push(value@))) by {
                    assert forall|k: int| #![trigger out@[k]] 0 <= k < out@.len() implies out@[k].code@
                        == c0.push(value@)[k] && out@[k].run by {
                        if k < out0.len() {
                            assert(out@[k] == out0[k]);
                        }
                    }
                }
            },
            Block::Group(inner) => {
                proof {
                    assert(decreases_to!(bs => bs[i as int]));
                    assert(decreases_to!(bs => inner@));
                }
                match codes_in(inner, Ghost(inner@)) {
                    Some(mut more) => {
                        if more.len() == 0 {
                            proof {
                                lemma_codes_prefix_none(bs, i + 1);
                            }
                            return None;
                        }
                        let ghost added = more@;
                        out.append(&mut more);
                        assert(examples_are(out@, c0 + codes_of(inner@)->0)) by {
                            let c1 = codes_of(inner@)->0;
                            assert(examples_are(added, c1));
                            assert(out@ =~= out0 + added);
                            assert forall|k: int| #![trigger out@[k]] 0 <= k < out@.len() implies out@[k].code@
                                == (c0 + c1)[k] && out@[k].run by {
                                if k < out0.len() {
                                    assert(out@[k] == out0[k]);
                                } else {
                                    assert(out@[k] == added[k - out0.len()]);
                                    assert(added[k - out0.len()].code@ == c1[k - out0.len()]);
                                }
                            }
                        }
                    },
                    None => {
                        proof {
                            lemma_codes_prefix_none(bs, i + 1);
                        }
                        return None;
                    },
                }
            },
            _ => {
                proof {
                    lemma_codes_prefix_none(bs, i + 1);
                }
                return None;
            },
        }
        i = i + 1;
    }
    assert(bs.subrange(0, i as int) =~= bs);
    Some(out)
}

/// The examples of a section that holds nothing but code.
pub(crate) fn all_code(blocks: &Vec<Block>) -> (r: Option<Vec<Example>>)
    ensures
        match r {
            Some(ex) => all_code_spec(blocks@) matches Some(c) && examples_are(ex@, c),
            None => all_code_spec(blocks@) is None,
        },
{
    match codes_in(blocks, Ghost(blocks@)) {
        Some(ex) => if ex.len() > 0 {
            Some(ex)
        } else {
            None
        },
        None => None,
    }
}

// -- cross-references -------------------------------------------------------------

/// The page an inline names, if it is a single unadorned page name.
pub open spec fn bare_name_spec(x: Inline) -> Option<Seq<char>> {
    match x {
        Inline::Strong(c) => page_name(plain_text(c@)),
        Inline::Emph(c) => page_name(plain_text(c@)),
        Inline::Text(t) => page_name(t@),
        _ => None,
    }
}

pub(crate) fn bare_name(inline: &Inline) -> (r: Option<Vec<char>>)
    ensures
        match r {
            Some(v) => bare_name_spec(*inline) == Some(v@),
            None => bare_name_spec(*inline) is None,
        },
{
    match inline {
        Inline::Strong(c) => page_name_exec(&chars_of(crate::ir::to_plain_text(c).as_str())),
        Inline::Emph(c) => page_name_exec(&chars_of(crate::ir::to_plain_text(c).as_str())),
        Inline::Text(t) => page_name_exec(&chars_of(t.as_str())),
        _ => None,
    }
}

/// Text that opens with a manual section: `(1)`.
pub open spec fn section_ref(x: Inline) -> bool {
    match x {
        Inline::Text(t) => section_prefix(trim_start(t@)),
        _ => false,
    }
}

fn is_section_ref(x: &Inline) -> (r: bool)
    ensures
        r == section_ref(*x),
{
    match x {
        Inline::Text(t) => section_prefix_exec(&trim_start_chars(&chars_of(t.as_str()))),
        _ => false,
    }
}

/// Whether `s[k]` names a page that `s[k + 1]` gives the section of.
pub open spec fn ref_at(s: Seq<Inline>, k: int) -> bool {
    k + 1 < s.len() && section_ref(s[k + 1]) && bare_name_spec(s[k]) is Some
}

/// A link to another topic by name, with no text of its own.
pub open spec fn is_topic_link(x: Inline, name: Seq<char>) -> bool {
    match x {
        Inline::Link { dest: LinkDest::Topic { package: None, topic }, children } => topic@ == name
            && children@.len() == 0,
        _ => false,
    }
}

/// `o` is `s` with each page name that is followed by its section turned
/// into a link to that page.
pub open spec fn linked(o: Seq<Inline>, s: Seq<Inline>) -> bool {
    o.len() == s.len() && forall|k: int|
        #![trigger o[k]]
        0 <= k < s.len() ==> if ref_at(s, k) {
            is_topic_link(o[k], bare_name_spec(s[k])->0)
        } else {
            o[k] == s[k]
        }
}

/// Turn `ls(1)`-style cross-references into topic links, which resolve to a
/// real link when the target page is converted in the same run.
pub(crate) fn link_inlines(inlines: Vec<Inline>) -> (r: Vec<Inline>)
    ensures
        linked(r@, inlines@),
{
    let ghost s = inlines@;
    let mut rest = inlines;
    let mut out: Vec<Inline> = Vec::new();
    let n = rest.len();
    let mut i: usize = 0;
    while rest.len() > 0
        invariant
            i + rest@.len() == s.len(),
            s.len() == n,
            rest@ == s.subrange(i as int, s.len() as int),
            out@.len() == i,
            forall|k: int|
                #![trigger out@[k]]
                0 <= k < i - 1 ==> if ref_at(s, k) {
                    is_topic_link(out@[k], bare_name_spec(s[k])->0)
                } else {
                    out@[k] == s[k]
                },
            i > 0 ==> out@[i - 1] == s[i - 1],
        decreases rest.len(),
    {
        let inline = rest.remove(0);
        assert(inline == s[i as int]);
        let ghost out0 = out@;
        // `.BR ls (1)` arrives as bold `ls` followed by `(1)`.
        if i > 0 && is_section_ref(&inline) {
            match bare_name(&out[i - 1]) {
                Some(name) => {
                    out.pop();
                    out.push(
                        Inline::Link {
                            dest: LinkDest::Topic { package: None, topic: string_of(name.as_slice()) },
                            children: Vec::new(),
                        },
                    );
                    assert(ref_at(s, i - 1));
                },
                None => {
                    assert(!ref_at(s, i - 1));
                },
            }
        } else {
            assert(i > 0 ==> !ref_at(s, i - 1));
        }
        out.push(inline);
        proof {
            assert forall|k: int| #![trigger out@[k]] 0 <= k < i implies if ref_at(s, k) {
                is_topic_link(out@[k], bare_name_spec(s[k])->0)
            } else {
                out@[k] == s[k]
            } by {
                if k < i - 1 {
                    assert(out@[k] == out0[k]);
                }
            }
        }
        i = i + 1;
        assert(rest@ =~= s.subrange(i as int, s.len() as int));
    }
    proof {
        if i > 0 {
            assert(!ref_at(s, i - 1));
        }
    }
    out
}

/// `o` is `s` with the cross-references in its paragraphs linked, groups
/// included.
pub open spec fn linked_blocks(o: Seq<Block>, s: Seq<Block>) -> bool
    decreases s, 0int,
{
    if s.len() == 0 {
        o.len() == 0
    } else {
        let n = s.len() - 1;
        &&& o.len() == s.len()
        &&& linked_blocks(o.subrange(0, n), s.subrange(0, n))
        &&& linked_block(o[n], s[n])
    }
}

pub open spec fn linked_block(y: Block, x: Block) -> bool
    decreases x, 1int,
{
    match x {
        Block::Paragraph(i) => match y {
            Block::Paragraph(j) => linked(j@, i@),
            _ => false,
        },
        Block::Group(b) => match y {
            Block::Group(c) => linked_blocks(c@, b@),
            _ => false,
        },
        _ => y == x,
    }
}

fn link_blocks_in(blocks: Vec<Block>, Ghost(bs): Ghost<Seq<Block>>) -> (r: Vec<Block>)
    requires
        blocks@ == bs,
    ensures
        linked_blocks(r@, bs),
    decreases bs,
{
    let mut rest = blocks;
    let mut out: Vec<Block> = Vec::new();
    let n = rest.len();
    let mut i: usize = 0;
    while rest.len() > 0
        invariant
            i + rest@.len() == bs.len(),
            bs.len() == n,
            rest@ == bs.subrange(i as int, bs.len() as int),
            linked_blocks(out@, bs.subrange(0, i as int)),
        decreases rest.len(),
    {
        let block = rest.remove(0);
        assert(block == bs[i as int]);
        let ghost out0 = out@;
        let linked_one = match block {
            Block::Paragraph(inlines) => Block::Paragraph(link_inlines(inlines)),
            Block::Group(inner) => {
                let ghost iv = inner@;
                proof {
                    assert(decreases_to!(bs => bs[i as int]));
                    assert(decreases_to!(bs => inner@));
                }
                Block::Group(link_blocks_in(inner, Ghost(iv)))
            },
            other => other,
        };
        out.push(linked_one);
        proof {
            let next = bs.subrange(0, i + 1);
            assert(next.subrange(0, i as int) =~= bs.subrange(0, i as int));
            assert(out@.subrange(0, i as int) =~= out0);
            assert(linked_block(out@[i as int], next[i as int]));
        }
        i = i + 1;
        assert(rest@ =~= bs.subrange(i as int, bs.len() as int));
    }
    assert(bs.subrange(0, i as int) =~= bs);
    out
}

/// Link the cross-references in a section's paragraphs.
pub(crate) fn link_blocks(blocks: Vec<Block>) -> (r: Vec<Block>)
    ensures
        linked_blocks(r@, blocks@),
{
    let ghost bs = blocks@;
    link_blocks_in(blocks, Ghost(bs))
}

} // verus!
