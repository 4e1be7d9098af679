//! The Python reader: `.py` source to [`Topic`]s.
//!
//! Two layers, matching the two crates involved: `rustpython-parser` locates
//! documented entities and their signatures, and `pydocstring` parses each
//! docstring's section structure (Google and NumPy styles). [`syntax`] holds
//! what this reader reads of each, as plain values, and [`from_module`]
//! turns them into topics.
//!
//! Docstring prose is plain text, so this reader populates the [`Block`] layer
//! far more sparsely than the R reader does. That asymmetry is expected.

pub mod syntax;

use vstd::prelude::*;

use crate::ir::block::{block_v, blocks_v, lemma_blocks_v_concat, lemma_blocks_v_index, lemma_blocks_v_push, BlockV};
use crate::ir::inline::{inline_v, inlines_v, lemma_inlines_v_index, InlineV};
use crate::ir::topic::{examples_v, names_v, opt_chars, params_v, sections_v, ParamV, SectionV};
use crate::ir::{Block, Example, Inline, Param, Section, Topic};
use crate::man::names::{find_sub, find_sub_exec};
use crate::man::roff::is_text;
use crate::text::{
    char_views, chars_of, has_non_ws, has_non_ws_exec, join, join_exec, lines_from, lines_of, owned,
    push_chars, push_str, slice_chars, starts_with, string_of, trim, trim_chars, trim_start,
    trim_start_chars,
};
pub use syntax::{DocBlock, DocSection, Docstring, PyArg, PyArguments, PyStmt};
pub use syntax::{python_refusal, python_suite};
use syntax::{docstring_model, parse_docstring, parse_suite, python_parses};

verus! {

// -- inline markup ----------------------------------------------------------------

/// Characters a reStructuredText role is named with: `:func:`, `:py:meth:`.
pub open spec fn role_char(c: char) -> bool {
    ('a' <= c <= 'z') || ('A' <= c <= 'Z') || ('0' <= c <= '9') || c == '_' || c == '-' || c == '.'
        || c == ':'
}

/// The end of a role name starting at `i`: the index of the `:` that closes
/// it, if only role characters come before it and the name is not empty.
pub open spec fn role_end(s: Seq<char>, i: int) -> Option<int>
    decreases s.len() - i,
{
    if i < 0 || i >= s.len() {
        None
    } else if s[i] == ':' && i + 1 < s.len() && s[i + 1] == '`' {
        Some(i)
    } else if role_char(s[i]) {
        role_end(s, i + 1)
    } else {
        None
    }
}

/// A code span starting at `i`: ``` ``code`` ```, `` `code` ``, or
/// `` :role:`code` ``; its content and where the text after it starts.
pub open spec fn code_at(s: Seq<char>, i: int) -> Option<(Seq<char>, int)> {
    if 0 <= i && i + 1 < s.len() && s[i] == '`' && s[i + 1] == '`' {
        match find_sub(s, "``"@, i + 2) {
            Some(k) => if i + 2 <= k && k + 2 <= s.len() {
                Some((s.subrange(i + 2, k), k + 2))
            } else {
                None
            },
            None => None,
        }
    } else if 0 <= i < s.len() && s[i] == '`' {
        let k = crate::typst::html::find_from(s, '`', i + 1);
        if i + 1 < k < s.len() {
            Some((s.subrange(i + 1, k), k + 1))
        } else {
            None
        }
    } else if 0 <= i < s.len() && s[i] == ':' {
        match role_end(s, i + 1) {
            Some(e) => {
                let k = crate::typst::html::find_from(s, '`', e + 2);
                if i + 1 < e && e + 2 < k < s.len() {
                    Some((s.subrange(e + 2, k), k + 1))
                } else {
                    None
                }
            },
            None => None,
        }
    } else {
        None
    }
}

/// The runs of a paragraph from `i`: `(true, code)` for a code span,
/// `(false, text)` for the prose between them.
pub open spec fn runs_from(s: Seq<char>, i: int, text: Seq<char>) -> Seq<(bool, Seq<char>)>
    decreases s.len() - i,
{
    if i < 0 || i >= s.len() {
        if text.len() > 0 {
            seq![(false, text)]
        } else {
            seq![]
        }
    } else {
        match code_at(s, i) {
            Some((code, j)) => if i < j {
                (if text.len() > 0 {
                    seq![(false, text)]
                } else {
                    seq![]
                }) + seq![(true, code)] + runs_from(s, j, seq![])
            } else {
                seq![]
            },
            None => runs_from(s, i + 1, text.push(s[i])),
        }
    }
}

/// `v` is the inline content the runs describe: code spans as code, prose
/// as text.
pub open spec fn runs_are(v: Seq<Inline>, runs: Seq<(bool, Seq<char>)>) -> bool {
    v.len() == runs.len() && forall|k: int|
        #![trigger v[k]]
        0 <= k < v.len() ==> if runs[k].0 {
            v[k] matches Inline::Code(c) && c@ == runs[k].1
        } else {
            is_text(v[k], runs[k].1)
        }
}

proof fn lemma_code_at(s: Seq<char>, i: int)
    requires
        0 <= i < s.len(),
    ensures
        code_at(s, i) matches Some((c, j)) ==> i < j <= s.len(),
{
    if i + 1 < s.len() && s[i] == '`' && s[i + 1] == '`' {
        crate::man::names::lemma_find_sub(s, "``"@, i + 2);
    } else if s[i] == '`' {
        crate::typst::html::lemma_find_from(s, '`', i + 1);
    } else if s[i] == ':' {
        match role_end(s, i + 1) {
            Some(e) => {
                lemma_role_end(s, i + 1);
                crate::typst::html::lemma_find_from(s, '`', e + 2);
            },
            None => {},
        }
    }
}

proof fn lemma_role_end(s: Seq<char>, i: int)
    requires
        0 <= i,
    ensures
        role_end(s, i) matches Some(e) ==> i <= e && e + 1 < s.len() && s[e] == ':' && s[e + 1]
            == '`',
    decreases s.len() - i,
{
    if 0 <= i < s.len() && !(s[i] == ':' && i + 1 < s.len() && s[i + 1] == '`') && role_char(s[i]) {
        lemma_role_end(s, i + 1);
    }
}

fn role_end_exec(s: &Vec<char>, i: usize) -> (r: Option<usize>)
    requires
        i <= s.len(),
    ensures
        match r {
            Some(e) => role_end(s@, i as int) == Some(e as int),
            None => role_end(s@, i as int) is None,
        },
{
    let mut k = i;
    while k < s.len()
        invariant
            i <= k <= s.len(),
            role_end(s@, i as int) == role_end(s@, k as int),
        decreases s.len() - k,
    {
        let c = s[k];
        if c == ':' && k + 1 < s.len() && s[k + 1] == '`' {
            return Some(k);
        }
        if !(('a' <= c && c <= 'z') || ('A' <= c && c <= 'Z') || ('0' <= c && c <= '9') || c == '_'
            || c == '-' || c == '.' || c == ':') {
            return None;
        }
        k = k + 1;
    }
    None
}

fn find_pair(s: &Vec<char>, from: usize) -> (r: Option<usize>)
    requires
        from <= s.len(),
    ensures
        match r {
            Some(k) => find_sub(s@, "``"@, from as int) == Some(k as int),
            None => find_sub(s@, "``"@, from as int) is None,
        },
{
    proof {
        reveal_strlit("``");
    }
    let mut k = from;
    while k < s.len() && k + 1 < s.len()
        invariant
            from <= k <= s.len(),
            "``"@ == seq!['`', '`'],
            find_sub(s@, "``"@, from as int) == find_sub(s@, "``"@, k as int),
        decreases s.len() - k,
    {
        assert(s@.subrange(k as int, k + 2) =~= seq![s@[k as int], s@[k + 1]]);
        if s[k] == '`' && s[k + 1] == '`' {
            return Some(k);
        }
        k = k + 1;
    }
    assert(find_sub(s@, "``"@, k as int) is None);
    None
}

fn code_at_exec(s: &Vec<char>, i: usize) -> (r: Option<(Vec<char>, usize)>)
    requires
        i < s.len(),
    ensures
        match r {
            Some((c, j)) => code_at(s@, i as int) == Some((c@, j as int)),
            None => code_at(s@, i as int) is None,
        },
{
    proof {
        lemma_code_at(s@, i as int);
    }
    if i + 1 < s.len() && s[i] == '`' && s[i + 1] == '`' {
        match find_pair(s, i + 2) {
            Some(k) => {
                proof {
                    crate::man::names::lemma_find_sub(s@, "``"@, i + 2);
                    reveal_strlit("``");
                }
                Some((slice_chars(s, i + 2, k), k + 2))
            },
            None => None,
        }
    } else if s[i] == '`' {
        let k = crate::typst::html::find_exec(s, '`', i + 1);
        proof {
            crate::typst::html::lemma_find_from(s@, '`', i + 1);
        }
        if i + 1 < k && k < s.len() {
            Some((slice_chars(s, i + 1, k), k + 1))
        } else {
            None
        }
    } else if s[i] == ':' {
        match role_end_exec(s, i + 1) {
            Some(e) => {
                proof {
                    lemma_role_end(s@, i + 1);
                }
                let k = crate::typst::html::find_exec(s, '`', e + 2);
                proof {
                    crate::typst::html::lemma_find_from(s@, '`', e + 2);
                }
                if i + 1 < e && e + 2 < k && k < s.len() {
                    Some((slice_chars(s, e + 2, k), k + 1))
                } else {
                    None
                }
            },
            None => None,
        }
    } else {
        None
    }
}

/// A paragraph's inline content: its code spans as code, the prose between
/// them as text.
pub(crate) fn marked_up(s: &Vec<char>) -> (r: Vec<Inline>)
    ensures
        runs_are(r@, runs_from(s@, 0, seq![])),
{
    let mut out: Vec<Inline> = Vec::new();
    let ghost mut runs: Seq<(bool, Seq<char>)> = seq![];
    let mut text: Vec<char> = Vec::new();
    let mut i: usize = 0;
    while i < s.len()
        invariant
            i <= s.len(),
            runs_from(s@, 0, seq![]) == runs + runs_from(s@, i as int, text@),
            runs_are(out@, runs),
        decreases s.len() - i,
    {
        proof {
            lemma_code_at(s@, i as int);
        }
        match code_at_exec(s, i) {
            Some((code, j)) => {
                let ghost before = out@;
                let ghost r0 = runs;
                let ghost t0 = text@;
                if text.len() > 0 {
                    let mut taken: Vec<char> = Vec::new();
                    std::mem::swap(&mut taken, &mut text);
                    out.push(Inline::Text(string_of(taken.as_slice())));
                    proof {
                        runs = runs.push((false, taken@));
                    }
                }
                out.push(Inline::Code(string_of(code.as_slice())));
                proof {
                    runs = runs.push((true, code@));
                    assert(runs_are(out@, runs)) by {
                        assert forall|k: int| #![trigger out@[k]] 0 <= k < out@.len() implies (if runs[k].0 {
                            out@[k] matches Inline::Code(c) && c@ == runs[k].1
                        } else {
                            is_text(out@[k], runs[k].1)
                        }) by {
                            if k < before.len() {
                                assert(out@[k] == before[k]);
                                assert(runs[k] == r0[k]);
                            }
                        }
                    }
                    let head: Seq<(bool, Seq<char>)> = if t0.len() > 0 {
                        seq![(false, t0)]
                    } else {
                        seq![]
                    };
                    assert(runs =~= r0 + head + seq![(true, code@)]);
                    assert(runs + runs_from(s@, j as int, Seq::<char>::empty()) =~= r0 + runs_from(
                        s@,
                        i as int,
                        t0,
                    ));
                }
                text = Vec::new();
                i = j;
            },
            None => {
                text.push(s[i]);
                i = i + 1;
            },
        }
    }
    if text.len() > 0 {
        let ghost before = out@;
        out.push(Inline::Text(string_of(text.as_slice())));
        proof {
            assert forall|k: int| #![trigger out@[k]] 0 <= k < out@.len() - 1 implies (if (runs + seq![(false, text@)])[k].0 {
                out@[k] matches Inline::Code(c) && c@ == (runs + seq![(false, text@)])[k].1
            } else {
                is_text(out@[k], (runs + seq![(false, text@)])[k].1)
            }) by {
                assert(out@[k] == before[k]);
            }
        }
    } else {
        assert(runs + Seq::<(bool, Seq<char>)>::empty() =~= runs);
    }
    out
}

// -- prose ------------------------------------------------------------------------

/// The pieces of `s` from `i` between blank lines (`str::split("\n\n")`).
pub open spec fn blank_pieces(s: Seq<char>, i: int) -> Seq<Seq<char>>
    decreases s.len() + 1 - i,
{
    if i < 0 || i > s.len() {
        seq![]
    } else {
        match find_sub(s, "\n\n"@, i) {
            Some(j) => if i <= j && j + 2 <= s.len() {
                seq![s.subrange(i, j)] + blank_pieces(s, j + 2)
            } else {
                seq![]
            },
            None => seq![s.subrange(i, s.len() as int)],
        }
    }
}

/// Each piece trimmed.
pub open spec fn trim_all(pieces: Seq<Seq<char>>) -> Seq<Seq<char>> {
    pieces.map_values(|l: Seq<char>| trim(l))
}

/// Each piece unwrapped to one line.
pub open spec fn unwrap_all(pieces: Seq<Seq<char>>) -> Seq<Seq<char>> {
    pieces.map_values(|p: Seq<char>| unwrap_spec(p))
}

/// The lines of `text`, each trimmed, joined with single spaces.
pub open spec fn unwrap_spec(text: Seq<char>) -> Seq<char> {
    join(trim_all(lines_from(text, 0)), " "@)
}

/// The paragraphs of plain prose: the non-blank pieces between blank lines,
/// each trimmed and unwrapped to one line.
pub open spec fn paragraphs(text: Seq<char>) -> Seq<Seq<char>> {
    unwrap_all(crate::man::names::nonempty(trim_all(blank_pieces(text, 0))))
}

/// `blocks` are paragraphs of the texts `texts`, their code spans marked up.
pub open spec fn paragraphs_are(blocks: Seq<Block>, texts: Seq<Seq<char>>) -> bool {
    blocks.len() == texts.len() && forall|k: int|
        #![trigger blocks[k]]
        0 <= k < blocks.len() ==> (blocks[k] matches Block::Paragraph(v) && runs_are(
            v@,
            runs_from(texts[k], 0, seq![]),
        ))
}

pub(crate) fn unwrap_lines(text: &Vec<char>) -> (r: Vec<char>)
    ensures
        r@ == unwrap_spec(text@),
{
    let lines = lines_of(text);
    let ghost ls = char_views(lines@);
    let mut trimmed: Vec<Vec<char>> = Vec::new();
    let mut i: usize = 0;
    while i < lines.len()
        invariant
            i <= lines.len(),
            ls == char_views(lines@),
            char_views(trimmed@) == trim_all(ls.subrange(0, i as int)),
        decreases lines.len() - i,
    {
        let ghost before = trimmed@;
        trimmed.push(trim_chars(&lines[i]));
        assert(trim_all(ls.subrange(0, i + 1)) =~= trim_all(ls.subrange(0, i as int)).push(
            trim(ls[i as int]),
        ));
        assert(char_views(trimmed@) =~= char_views(before).push(trim(ls[i as int])));
        i = i + 1;
    }
    assert(ls.subrange(0, i as int) =~= ls);
    join_exec(&trimmed, " ")
}

/// Split `text` at blank lines.
fn blank_pieces_exec(text: &Vec<char>) -> (r: Vec<Vec<char>>)
    ensures
        char_views(r@) == blank_pieces(text@, 0),
{
    let sep = chars_of("\n\n");
    proof {
        reveal_strlit("\n\n");
        assert("\n\n"@.len() == 2);
    }
    let mut out: Vec<Vec<char>> = Vec::new();
    let mut i: usize = 0;
    loop
        invariant
            i <= text.len(),
            sep@ == "\n\n"@,
            "\n\n"@.len() == 2,
            blank_pieces(text@, 0) == char_views(out@) + blank_pieces(text@, i as int),
        decreases text.len() + 1 - i,
    {
        let rest = slice_chars(text, i, text.len());
        let ghost before = out@;
        match find_sub_exec(&rest, &sep) {
            Some(k) => {
                proof {
                    lemma_find_sub_shift(text@, "\n\n"@, i as int, 0);
                }
                assert(find_sub(text@, "\n\n"@, i as int) == Some(i + k));
                out.push(slice_chars(text, i, i + k));
                assert(char_views(out@) =~= char_views(before) + seq![text@.subrange(i as int, i + k)]);
                i = i + k + 2;
            },
            None => {
                proof {
                    lemma_find_sub_shift(text@, "\n\n"@, i as int, 0);
                }
                out.push(rest);
                assert(char_views(out@) =~= char_views(before) + blank_pieces(text@, i as int));
                return out;
            },
        }
    }
}

/// Searching a suffix finds what searching the whole finds from where the
/// suffix starts, shifted.
proof fn lemma_find_sub_shift(s: Seq<char>, pat: Seq<char>, i: int, k: int)
    requires
        0 <= i <= s.len(),
        0 <= k,
    ensures
        ({
            let t = s.subrange(i, s.len() as int);
            match find_sub(t, pat, k) {
                Some(j) => find_sub(s, pat, i + k) == Some(i + j) && k <= j && j + pat.len() <= t.len(),
                None => find_sub(s, pat, i + k) is None,
            }
        }),
    decreases s.len() + 1 - i - k,
{
    let t = s.subrange(i, s.len() as int);
    if k + pat.len() <= t.len() {
        assert(t.subrange(k, k + pat.len()) =~= s.subrange(i + k, i + k + pat.len()));
        if t.subrange(k, k + pat.len()) != pat {
            lemma_find_sub_shift(s, pat, i, k + 1);
        }
    }
}

/// Split plain docstring prose into paragraphs on blank lines.
pub(crate) fn prose(text: &Vec<char>) -> (r: Vec<Block>)
    ensures
        paragraphs_are(r@, paragraphs(text@)),
        blocks_v(r@) == prose_v(text@),
{
    let pieces = blank_pieces_exec(text);
    let ghost ps = char_views(pieces@);
    let mut trimmed: Vec<Vec<char>> = Vec::new();
    let mut i: usize = 0;
    while i < pieces.len()
        invariant
            i <= pieces.len(),
            ps == char_views(pieces@),
            char_views(trimmed@) == trim_all(ps.subrange(0, i as int)),
        decreases pieces.len() - i,
    {
        let ghost before = trimmed@;
        trimmed.push(trim_chars(&pieces[i]));
        assert(trim_all(ps.subrange(0, i + 1)) =~= trim_all(ps.subrange(0, i as int)).push(
            trim(ps[i as int]),
        ));
        assert(char_views(trimmed@) =~= char_views(before).push(trim(ps[i as int])));
        i = i + 1;
    }
    assert(ps.subrange(0, i as int) =~= ps);
    let kept = crate::man::names::nonempty_exec(trimmed);
    let ghost ks = char_views(kept@);
    let mut out: Vec<Block> = Vec::new();
    let mut k: usize = 0;
    while k < kept.len()
        invariant
            k <= kept.len(),
            ks == char_views(kept@),
            paragraphs_are(out@, unwrap_all(ks.subrange(0, k as int))),
        decreases kept.len() - k,
    {
        let text_k = unwrap_lines(&kept[k]);
        let v = marked_up(&text_k);
        let ghost before = out@;
        out.push(Block::Paragraph(v));
        proof {
            let texts = unwrap_all(ks.subrange(0, k + 1));
            assert(texts =~= unwrap_all(ks.subrange(0, k as int)).push(unwrap_spec(ks[k as int])));
            assert forall|j: int| #![trigger out@[j]] 0 <= j < out@.len() implies (out@[j] matches Block::Paragraph(
                w,
            ) && runs_are(w@, runs_from(texts[j], 0, seq![]))) by {
                if j < k {
                    assert(out@[j] == before[j]);
                }
            }
        }
        k = k + 1;
    }
    assert(ks.subrange(0, k as int) =~= ks);
    proof {
        lemma_prose_v(out@, text@);
    }
    out
}

/// The inline content runs describe: code spans as code, prose as text.
pub open spec fn runs_v(runs: Seq<(bool, Seq<char>)>) -> Seq<InlineV> {
    Seq::new(
        runs.len(),
        |k: int|
            if runs[k].0 {
                InlineV::Code(runs[k].1)
            } else {
                InlineV::Text(runs[k].1)
            },
    )
}

/// Plain docstring prose as blocks: a paragraph for each non-blank piece
/// between blank lines, its code spans marked up.
pub open spec fn prose_v(text: Seq<char>) -> Seq<BlockV> {
    Seq::new(
        paragraphs(text).len(),
        |k: int| BlockV::Paragraph(runs_v(runs_from(paragraphs(text)[k], 0, seq![]))),
    )
}

proof fn lemma_runs_v(v: Seq<Inline>, runs: Seq<(bool, Seq<char>)>)
    requires
        runs_are(v, runs),
    ensures
        inlines_v(v) == runs_v(runs),
{
    lemma_inlines_v_index(v);
    assert forall|k: int| 0 <= k < v.len() implies inlines_v(v)[k] == runs_v(runs)[k] by {
        let x = v[k];
    }
    assert(inlines_v(v) =~= runs_v(runs));
}

proof fn lemma_prose_v(b: Seq<Block>, text: Seq<char>)
    requires
        paragraphs_are(b, paragraphs(text)),
    ensures
        blocks_v(b) == prose_v(text),
{
    lemma_blocks_v_index(b);
    assert forall|k: int| 0 <= k < b.len() implies blocks_v(b)[k] == prose_v(text)[k] by {
        match b[k] {
            Block::Paragraph(v) => lemma_runs_v(v@, runs_from(paragraphs(text)[k], 0, seq![])),
            _ => {},
        }
    }
    assert(blocks_v(b) =~= prose_v(text));
}

// -- doctests ---------------------------------------------------------------------

/// The code of a doctest line: what follows its `>>> ` or `... ` prompt, or
/// nothing after a bare `>>>`; `None` for expected output.
pub open spec fn doctest_code(line: Seq<char>) -> Option<Seq<char>> {
    let t = trim_start(line);
    if starts_with(t, ">>> "@) || starts_with(t, "... "@) {
        Some(t.subrange(4, t.len() as int))
    } else if t == ">>>"@ {
        Some(seq![])
    } else {
        None
    }
}

/// The code lines of `lines`, in order.
pub open spec fn doctest_lines(lines: Seq<Seq<char>>) -> Seq<Seq<char>>
    decreases lines.len(),
{
    if lines.len() == 0 {
        seq![]
    } else {
        match doctest_code(lines.last()) {
            Some(c) => doctest_lines(lines.drop_last()).push(c),
            None => doctest_lines(lines.drop_last()),
        }
    }
}

/// An example's code: `>>> ` and `... ` doctest prompts stripped and expected
/// output dropped, or, with no prompt at all, the text as it is.
pub open spec fn strip_prompts_spec(text: Seq<char>) -> Seq<char> {
    let lines = lines_from(text, 0);
    if exists|i: int| 0 <= i < lines.len() && #[trigger] starts_with(trim_start(lines[i]), ">>>"@) {
        trim(join(doctest_lines(lines), "\n"@))
    } else {
        trim(text)
    }
}

/// Strip `>>> ` and `... ` doctest prompts, keeping the code and dropping
/// expected output.
pub(crate) fn strip_prompts(text: &Vec<char>) -> (r: Vec<char>)
    ensures
        r@ == strip_prompts_spec(text@),
{
    proof {
        reveal_strlit(">>> ");
        reveal_strlit("... ");
        reveal_strlit(">>>");
        assert(">>> "@.len() == 4);
        assert("... "@.len() == 4);
    }
    let lines = lines_of(text);
    let ghost ls = char_views(lines@);
    let mut any = false;
    let mut i: usize = 0;
    while i < lines.len()
        invariant
            i <= lines.len(),
            ls == char_views(lines@),
            any == exists|j: int| 0 <= j < i && #[trigger] starts_with(trim_start(ls[j]), ">>>"@),
        decreases lines.len() - i,
    {
        let t = trim_start_chars(&lines[i]);
        assert(t@ == trim_start(ls[i as int]));
        if crate::text::starts_with_exec(&t, ">>>") {
            any = true;
        }
        proof {
            if !starts_with(trim_start(ls[i as int]), ">>>"@) {
                assert forall|j: int| 0 <= j < i + 1 && #[trigger] starts_with(trim_start(ls[j]), ">>>"@) implies j < i by {}
            }
        }
        i = i + 1;
    }
    if !any {
        return trim_chars(text);
    }
    let mut code: Vec<Vec<char>> = Vec::new();
    let mut k: usize = 0;
    assert(ls.subrange(0, 0) =~= Seq::<Seq<char>>::empty());
    while k < lines.len()
        invariant
            k <= lines.len(),
            ls == char_views(lines@),
            ">>> "@.len() == 4,
            "... "@.len() == 4,
            char_views(code@) == doctest_lines(ls.subrange(0, k as int)),
        decreases lines.len() - k,
    {
        let t = trim_start_chars(&lines[k]);
        let ghost pre = ls.subrange(0, k as int);
        let ghost next = ls.subrange(0, k + 1);
        assert(next.drop_last() =~= pre);
        assert(next.last() == ls[k as int]);
        let ghost before = code@;
        if crate::text::starts_with_exec(&t, ">>> ") || crate::text::starts_with_exec(&t, "... ") {
            code.push(slice_chars(&t, 4, t.len()));
            assert(char_views(code@) =~= char_views(before).push(t@.subrange(4, t@.len() as int)));
        } else if crate::man::roff::is(&t, ">>>") {
            code.push(Vec::new());
            assert(char_views(code@) =~= char_views(before).push(Seq::<char>::empty()));
        }
        k = k + 1;
    }
    assert(ls.subrange(0, k as int) =~= ls);
    trim_chars(&join_exec(&code, "\n"))
}

// -- names ------------------------------------------------------------------------

/// A name qualified by the class or module it belongs to.
pub open spec fn qualify_spec(prefix: Seq<char>, name: Seq<char>) -> Seq<char> {
    if prefix.len() == 0 {
        name
    } else {
        prefix + "."@ + name
    }
}

pub(crate) fn qualify(prefix: &Vec<char>, name: &Vec<char>) -> (r: Vec<char>)
    ensures
        r@ == qualify_spec(prefix@, name@),
{
    if prefix.len() == 0 {
        return slice_chars(name, 0, name.len());
    }
    let mut out = slice_chars(prefix, 0, prefix.len());
    push_str(&mut out, ".");
    push_chars(&mut out, name);
    out
}

// -- signatures -------------------------------------------------------------------

pub open spec fn opt_text(o: Option<String>) -> Option<Seq<char>> {
    match o {
        Some(s) => Some(s@),
        None => None,
    }
}

/// Argument name to default text, in the order a map built from them
/// would take them: positional first, then keyword-only.
pub open spec fn defaults_in(args: Seq<PyArg>) -> Seq<(Seq<char>, Seq<char>)>
    decreases args.len(),
{
    if args.len() == 0 {
        seq![]
    } else {
        defaults_in(args.drop_last()) + match args.last().default {
            Some(d) => seq![(args.last().name@, d@)],
            None => seq![],
        }
    }
}

pub open spec fn defaults_spec(a: PyArguments) -> Seq<(Seq<char>, Seq<char>)> {
    defaults_in(a.posonly@) + defaults_in(a.args@) + defaults_in(a.kwonly@)
}

/// The default recorded last for `name`: a map keeps the last insertion.
pub open spec fn lookup(defaults: Seq<(Seq<char>, Seq<char>)>, name: Seq<char>) -> Option<Seq<char>>
    decreases defaults.len(),
{
    if defaults.len() == 0 {
        None
    } else if defaults.last().0 == name {
        Some(defaults.last().1)
    } else {
        lookup(defaults.drop_last(), name)
    }
}

/// An argument's annotation as a `def` line shows it.
pub open spec fn annotation_part(arg: PyArg) -> Seq<char> {
    match arg.annotation {
        Some(t) => ": "@ + t@,
        None => seq![],
    }
}

/// An argument's default as a `def` line shows it.
pub open spec fn default_part(arg: PyArg, defaults: Seq<(Seq<char>, Seq<char>)>) -> Seq<char> {
    match lookup(defaults, arg.name@) {
        Some(d) => (if arg.annotated {
            " = "@
        } else {
            "="@
        }) + d,
        None => seq![],
    }
}

/// One argument as a `def` line shows it, annotation and default included.
pub open spec fn render_spec(arg: PyArg, defaults: Seq<(Seq<char>, Seq<char>)>) -> Seq<char> {
    arg.name@ + annotation_part(arg) + default_part(arg, defaults)
}

pub open spec fn render_all(args: Seq<PyArg>, defaults: Seq<(Seq<char>, Seq<char>)>) -> Seq<Seq<char>>
    decreases args.len(),
{
    if args.len() == 0 {
        seq![]
    } else {
        render_all(args.drop_last(), defaults).push(render_spec(args.last(), defaults))
    }
}

/// `/` after positional-only parameters.
pub open spec fn slash_part(a: PyArguments) -> Seq<Seq<char>> {
    if a.posonly@.len() > 0 {
        seq!["/"@]
    } else {
        seq![]
    }
}

/// `*args`, or a bare `*` before keyword-only parameters.
pub open spec fn star_part(a: PyArguments, d: Seq<(Seq<char>, Seq<char>)>) -> Seq<Seq<char>> {
    match a.vararg {
        Some(v) => seq!["*"@ + render_spec(v, d)],
        None => if a.kwonly@.len() > 0 {
            seq!["*"@]
        } else {
            seq![]
        },
    }
}

/// `**kwargs`.
pub open spec fn kwarg_part(a: PyArguments, d: Seq<(Seq<char>, Seq<char>)>) -> Seq<Seq<char>> {
    match a.kwarg {
        Some(k) => seq!["**"@ + render_spec(k, d)],
        None => seq![],
    }
}

/// The parts of a `def` line's parameter list.
pub open spec fn parts_spec(a: PyArguments) -> Seq<Seq<char>> {
    let d = defaults_spec(a);
    render_all(a.posonly@, d) + slash_part(a) + render_all(a.args@, d) + star_part(a, d)
        + render_all(a.kwonly@, d) + kwarg_part(a, d)
}

/// How many parameters a `def` takes: the markers `/` and `*` are not
/// parameters.
pub open spec fn param_count(a: PyArguments) -> int {
    a.posonly@.len() + a.args@.len() + (if a.vararg is Some {
        1int
    } else {
        0
    }) + a.kwonly@.len() + (if a.kwarg is Some {
        1int
    } else {
        0
    })
}

/// A `def` line rendered from the parsed argument list, on one line when it
/// is short and has at most three parameters, and otherwise one parameter
/// per line with a two-space indent, as the R and Typst readers break theirs.
pub open spec fn signature_spec(name: Seq<char>, a: PyArguments) -> Seq<char> {
    let one_line = "def "@ + name + "("@ + join(parts_spec(a), ", "@) + ")"@;
    if crate::text::utf8_len(one_line) <= 78 && param_count(a) <= 3 {
        one_line
    } else {
        "def "@ + name + "(\n  "@ + join(parts_spec(a), ",\n  "@) + "\n)"@
    }
}

fn defaults_of_list(args: &Vec<PyArg>, out: &mut Vec<(Vec<char>, Vec<char>)>)
    ensures
        pair_views(final(out)@) == pair_views(old(out)@) + defaults_in(args@),
{
    let ghost start = pair_views(out@);
    let mut i: usize = 0;
    assert(args@.subrange(0, 0) =~= Seq::<PyArg>::empty());
    assert(start + Seq::<(Seq<char>, Seq<char>)>::empty() =~= start);
    while i < args.len()
        invariant
            i <= args.len(),
            pair_views(out@) == start + defaults_in(args@.subrange(0, i as int)),
        decreases args.len() - i,
    {
        let ghost pre = args@.subrange(0, i as int);
        let ghost next = args@.subrange(0, i + 1);
        assert(next.drop_last() =~= pre);
        let ghost before = pair_views(out@);
        match &args[i].default {
            Some(d) => {
                out.push((chars_of(args[i].name.as_str()), chars_of(d.as_str())));
                assert(pair_views(out@) =~= before.push((args@[i as int].name@, d@)));
                assert(defaults_in(next) =~= defaults_in(pre) + seq![(args@[i as int].name@, d@)]);
            },
            None => {
                assert(defaults_in(next) =~= defaults_in(pre));
            },
        }
        i = i + 1;
    }
    assert(args@.subrange(0, i as int) =~= args@);
}

pub open spec fn pair_views(v: Seq<(Vec<char>, Vec<char>)>) -> Seq<(Seq<char>, Seq<char>)> {
    v.map_values(|p: (Vec<char>, Vec<char>)| (p.0@, p.1@))
}

fn lookup_exec(defaults: &Vec<(Vec<char>, Vec<char>)>, name: &Vec<char>) -> (r: Option<Vec<char>>)
    ensures
        match r {
            Some(d) => lookup(pair_views(defaults@), name@) == Some(d@),
            None => lookup(pair_views(defaults@), name@) is None,
        },
{
    let ghost ds = pair_views(defaults@);
    let mut i = defaults.len();
    assert(ds.subrange(0, i as int) =~= ds);
    while i > 0
        invariant
            i <= defaults.len(),
            ds == pair_views(defaults@),
            lookup(ds, name@) == lookup(ds.subrange(0, i as int), name@),
        decreases i,
    {
        let ghost pre = ds.subrange(0, i as int);
        assert(pre.drop_last() =~= ds.subrange(0, i - 1));
        assert(pre.last() == (defaults@[i - 1].0@, defaults@[i - 1].1@));
        if crate::text::seq_eq(&defaults[i - 1].0, name) {
            return Some(crate::text::slice_chars(&defaults[i - 1].1, 0, defaults[i - 1].1.len()));
        }
        i = i - 1;
    }
    None
}

fn render_arg(arg: &PyArg, defaults: &Vec<(Vec<char>, Vec<char>)>) -> (r: Vec<char>)
    ensures
        r@ == render_spec(*arg, pair_views(defaults@)),
{
    let name = chars_of(arg.name.as_str());
    let mut out = crate::text::slice_chars(&name, 0, name.len());
    match &arg.annotation {
        Some(text) => {
            push_str(&mut out, ": ");
            push_chars(&mut out, &chars_of(text.as_str()));
        },
        None => {},
    }
    let ghost mid = out@;
    match lookup_exec(defaults, &name) {
        Some(default) => {
            if arg.annotated {
                push_str(&mut out, " = ");
            } else {
                push_str(&mut out, "=");
            }
            push_chars(&mut out, &default);
        },
        None => {},
    }
    proof {
        assert(mid =~= arg.name@ + annotation_part(*arg));
        assert(out@ =~= arg.name@ + annotation_part(*arg) + default_part(*arg, pair_views(defaults@)));
    }
    out
}

fn render_list(args: &Vec<PyArg>, defaults: &Vec<(Vec<char>, Vec<char>)>, parts: &mut Vec<Vec<char>>)
    ensures
        char_views(final(parts)@) == char_views(old(parts)@) + render_all(args@, pair_views(defaults@)),
{
    let ghost start = char_views(parts@);
    let ghost d = pair_views(defaults@);
    let mut i: usize = 0;
    assert(args@.subrange(0, 0) =~= Seq::<PyArg>::empty());
    assert(start + Seq::<Seq<char>>::empty() =~= start);
    while i < args.len()
        invariant
            i <= args.len(),
            d == pair_views(defaults@),
            char_views(parts@) == start + render_all(args@.subrange(0, i as int), d),
        decreases args.len() - i,
    {
        let ghost pre = args@.subrange(0, i as int);
        let ghost next = args@.subrange(0, i + 1);
        assert(next.drop_last() =~= pre);
        let ghost before = char_views(parts@);
        let r = render_arg(&args[i], defaults);
        parts.push(r);
        assert(char_views(parts@) =~= before.push(render_spec(args@[i as int], d)));
        assert(start + render_all(next, d) =~= (start + render_all(pre, d)).push(
            render_spec(args@[i as int], d),
        ));
        i = i + 1;
    }
    assert(args@.subrange(0, i as int) =~= args@);
}

fn push_part(parts: &mut Vec<Vec<char>>, part: Vec<char>)
    ensures
        char_views(final(parts)@) == char_views(old(parts)@).push(part@),
{
    parts.push(part);
    assert(char_views(parts@) =~= char_views(old(parts)@).push(part@));
}

/// Render a `def` line from the parsed argument list.
pub(crate) fn signature(name: &Vec<char>, args: &PyArguments) -> (r: Vec<char>)
    ensures
        r@ == signature_spec(name@, *args),
{
    let mut defaults: Vec<(Vec<char>, Vec<char>)> = Vec::new();
    defaults_of_list(&args.posonly, &mut defaults);
    defaults_of_list(&args.args, &mut defaults);
    defaults_of_list(&args.kwonly, &mut defaults);
    let ghost d = pair_views(defaults@);
    assert(d == defaults_spec(*args));
    let mut parts: Vec<Vec<char>> = Vec::new();
    render_list(&args.posonly, &defaults, &mut parts);
    let ghost p1 = char_views(parts@);
    if args.posonly.len() > 0 {
        push_part(&mut parts, chars_of("/"));
    }
    let ghost p2 = char_views(parts@);
    render_list(&args.args, &defaults, &mut parts);
    let ghost p3 = char_views(parts@);
    match &args.vararg {
        Some(v) => {
            let mut t = chars_of("*");
            push_chars(&mut t, &render_arg(v, &defaults));
            push_part(&mut parts, t);
        },
        None => {
            if args.kwonly.len() > 0 {
                push_part(&mut parts, chars_of("*"));
            }
        },
    }
    let ghost p4 = char_views(parts@);
    render_list(&args.kwonly, &defaults, &mut parts);
    let ghost p5 = char_views(parts@);
    match &args.kwarg {
        Some(k) => {
            let mut t = chars_of("**");
            push_chars(&mut t, &render_arg(k, &defaults));
            push_part(&mut parts, t);
        },
        None => {},
    }
    proof {
        assert(p2 =~= p1 + slash_part(*args));
        assert(p4 =~= p3 + star_part(*args, d));
        assert(char_views(parts@) =~= p5 + kwarg_part(*args, d));
        assert(char_views(parts@) =~= parts_spec(*args));
    }
    let mut one_line = chars_of("def ");
    push_chars(&mut one_line, name);
    push_str(&mut one_line, "(");
    push_chars(&mut one_line, &join_exec(&parts, ", "));
    push_str(&mut one_line, ")");
    let count = (args.posonly.len() as u128) + (args.args.len() as u128) + (if args.vararg.is_some() {
        1u128
    } else {
        0u128
    }) + (args.kwonly.len() as u128) + (if args.kwarg.is_some() {
        1u128
    } else {
        0u128
    });
    if crate::text::utf8_len_exec(&one_line) <= 78 && count <= 3 {
        return one_line;
    }
    // Long or many-parameter signatures break one parameter per line.
    let mut out = chars_of("def ");
    push_chars(&mut out, name);
    push_str(&mut out, "(\n  ");
    push_chars(&mut out, &join_exec(&parts, ",\n  "));
    push_str(&mut out, "\n)");
    out
}

// -- docstrings -------------------------------------------------------------------

/// Prose that may be missing, as blocks.
pub open spec fn opt_prose_v(text: Option<String>) -> Seq<BlockV> {
    match text {
        Some(t) => prose_v(t@),
        None => Seq::empty(),
    }
}

/// A paragraph of one code span.
pub open spec fn code_paragraph(code: Seq<char>) -> BlockV {
    BlockV::Paragraph(seq![InlineV::Code(code)])
}

/// The parameter a block documents, if it documents one.
pub open spec fn param_block(b: DocBlock) -> Seq<ParamV> {
    match b {
        DocBlock::Parameter { names, ty, default, optional, description } => seq![
            ParamV {
                names: names_v(names@),
                ty: opt_chars(ty),
                default: opt_chars(default),
                optional,
                body: opt_prose_v(description),
            },
        ],
        _ => seq![],
    }
}

/// The inline content of a return entry: its type as code, then, after a
/// dash where there is a type, its trimmed description.
pub open spec fn return_inlines(ty: Option<String>, description: Option<String>) -> Seq<InlineV> {
    let head = match ty {
        Some(t) => seq![InlineV::Code(t@)],
        None => seq![],
    };
    match description {
        Some(d) => head + (if head.len() > 0 {
            seq![InlineV::Text(" \u{2014} "@)]
        } else {
            seq![]
        }) + seq![InlineV::Text(trim(d@))],
        None => head,
    }
}

/// The blocks a Returns or Yields section gives a block: a paragraph for a
/// return entry that says anything, prose for a paragraph.
pub open spec fn return_block(b: DocBlock) -> Seq<BlockV> {
    match b {
        DocBlock::Return { ty, description } => if return_inlines(ty, description).len() > 0 {
            seq![BlockV::Paragraph(return_inlines(ty, description))]
        } else {
            seq![]
        },
        DocBlock::Paragraph(text) => prose_v(text@),
        _ => seq![],
    }
}

/// The exception a block documents, if it documents one, named by the
/// string its entry quotes.
pub open spec fn raise_block(b: DocBlock) -> Seq<ParamV> {
    match b {
        DocBlock::Exception { entry, description } => seq![
            ParamV {
                names: seq![quoted_spec(entry@)],
                ty: None,
                default: None,
                optional: false,
                body: opt_prose_v(description),
            },
        ],
        _ => seq![],
    }
}

/// The blocks a section with no field of its own gives a block.
pub open spec fn free_block(b: DocBlock) -> Seq<BlockV> {
    match b {
        DocBlock::Paragraph(text) => prose_v(text@),
        DocBlock::SeeAlso { names } => seq![code_paragraph(join(names_v(names@), ", "@))],
        DocBlock::Reference(text) => seq![BlockV::Paragraph(seq![InlineV::Text(text@)])],
        DocBlock::Attribute { names } => seq![code_paragraph(join(names_v(names@), ", "@))],
        DocBlock::Method { name } => seq![code_paragraph(name@)],
        _ => seq![],
    }
}

/// The example a block of an Examples section gives: each paragraph's
/// code, its doctest prompts stripped.
pub open spec fn example_block(b: DocBlock) -> Seq<(Seq<char>, bool)> {
    match b {
        DocBlock::Paragraph(text) => seq![(strip_prompts_spec(text@), true)],
        _ => seq![],
    }
}

/// The parameters of `blocks`, in order.
pub open spec fn gather_params(blocks: Seq<DocBlock>) -> Seq<ParamV>
    decreases blocks.len(),
{
    if blocks.len() == 0 {
        seq![]
    } else {
        gather_params(blocks.drop_last()) + param_block(blocks.last())
    }
}

/// The return blocks of `blocks`, in order.
pub open spec fn gather_returns(blocks: Seq<DocBlock>) -> Seq<BlockV>
    decreases blocks.len(),
{
    if blocks.len() == 0 {
        seq![]
    } else {
        gather_returns(blocks.drop_last()) + return_block(blocks.last())
    }
}

/// The exceptions of `blocks`, in order.
pub open spec fn gather_raises(blocks: Seq<DocBlock>) -> Seq<ParamV>
    decreases blocks.len(),
{
    if blocks.len() == 0 {
        seq![]
    } else {
        gather_raises(blocks.drop_last()) + raise_block(blocks.last())
    }
}

/// The free blocks of `blocks`, in order.
pub open spec fn gather_free(blocks: Seq<DocBlock>) -> Seq<BlockV>
    decreases blocks.len(),
{
    if blocks.len() == 0 {
        seq![]
    } else {
        gather_free(blocks.drop_last()) + free_block(blocks.last())
    }
}

/// The examples of `blocks`, in order.
pub open spec fn gather_examples(blocks: Seq<DocBlock>) -> Seq<(Seq<char>, bool)>
    decreases blocks.len(),
{
    if blocks.len() == 0 {
        seq![]
    } else {
        gather_examples(blocks.drop_last()) + example_block(blocks.last())
    }
}

fn opt_prose(text: &Option<String>) -> (r: Vec<Block>)
    ensures
        blocks_v(r@) == opt_prose_v(*text),
{
    match text {
        Some(t) => prose(&chars_of(t.as_str())),
        None => Vec::new(),
    }
}

fn strings_copy(v: &Vec<String>) -> (r: Vec<String>)
    ensures
        names_v(r@) == names_v(v@),
{
    let mut out: Vec<String> = Vec::new();
    let mut i: usize = 0;
    while i < v.len()
        invariant
            i <= v.len(),
            names_v(out@) == names_v(v@.subrange(0, i as int)),
        decreases v.len() - i,
    {
        let ghost before = out@;
        let piece = string_of(chars_of(v[i].as_str()).as_slice());
        assert(piece@ == v@[i as int]@);
        out.push(piece);
        assert(names_v(out@) =~= names_v(before).push(v@[i as int]@));
        assert(names_v(v@.subrange(0, i + 1)) =~= names_v(v@.subrange(0, i as int)).push(v@[i as int]@));
        i = i + 1;
    }
    assert(v@.subrange(0, v.len() as int) =~= v@);
    out
}

fn opt_copy(v: &Option<String>) -> (r: Option<String>)
    ensures
        opt_text(r) == opt_text(*v),
        opt_chars(r) == opt_chars(*v),
{
    match v {
        Some(s) => Some(string_of(chars_of(s.as_str()).as_slice())),
        None => None,
    }
}

fn joined_code(names: &Vec<String>) -> (r: Block)
    ensures
        block_v(r) == code_paragraph(join(names_v(names@), ", "@)),
{
    let mut parts: Vec<Vec<char>> = Vec::new();
    let mut i: usize = 0;
    while i < names.len()
        invariant
            i <= names.len(),
            char_views(parts@) == names_v(names@.subrange(0, i as int)),
        decreases names.len() - i,
    {
        let ghost before = parts@;
        let piece = chars_of(names[i].as_str());
        parts.push(piece);
        assert(char_views(parts@) =~= char_views(before).push(names@[i as int]@));
        assert(names_v(names@.subrange(0, i + 1)) =~= names_v(names@.subrange(0, i as int)).push(names@[i as int]@));
        i = i + 1;
    }
    assert(names@.subrange(0, names.len() as int) =~= names@);
    let mut v: Vec<Inline> = Vec::new();
    v.push(Inline::Code(string_of(join_exec(&parts, ", ").as_slice())));
    proof {
        lemma_inlines_v_index(v@);
        assert(inlines_v(v@) =~= seq![InlineV::Code(join(names_v(names@), ", "@))]);
    }
    Block::Paragraph(v)
}

/// A paragraph of one inline.
fn one_paragraph(x: Inline) -> (r: Block)
    ensures
        block_v(r) == BlockV::Paragraph(seq![inline_v(x)]),
{
    let mut v: Vec<Inline> = Vec::new();
    v.push(x);
    proof {
        lemma_inlines_v_index(v@);
        assert(inlines_v(v@) =~= seq![inline_v(x)]);
    }
    Block::Paragraph(v)
}

fn params_of_blocks(blocks: &Vec<DocBlock>) -> (r: Vec<Param>)
    ensures
        params_v(r@) == gather_params(blocks@),
{
    let mut out: Vec<Param> = Vec::new();
    let mut i: usize = 0;
    while i < blocks.len()
        invariant
            i <= blocks.len(),
            params_v(out@) == gather_params(blocks@.subrange(0, i as int)),
        decreases blocks.len() - i,
    {
        let ghost before = out@;
        assert(blocks@.subrange(0, i + 1).drop_last() =~= blocks@.subrange(0, i as int));
        match &blocks[i] {
            DocBlock::Parameter { names, ty, default, optional, description } => {
                out.push(
                    Param {
                        names: strings_copy(names),
                        ty: opt_copy(ty),
                        default: opt_copy(default),
                        optional: *optional,
                        body: opt_prose(description),
                    },
                );
                assert(params_v(out@) =~= params_v(before) + param_block(blocks@[i as int]));
            },
            _ => {
                assert(params_v(out@) =~= params_v(before) + param_block(blocks@[i as int]));
            },
        }
        i = i + 1;
    }
    assert(blocks@.subrange(0, blocks.len() as int) =~= blocks@);
    out
}

fn returns_of_blocks(blocks: &Vec<DocBlock>) -> (r: Vec<Block>)
    ensures
        blocks_v(r@) == gather_returns(blocks@),
{
    let mut out: Vec<Block> = Vec::new();
    let mut i: usize = 0;
    while i < blocks.len()
        invariant
            i <= blocks.len(),
            blocks_v(out@) == gather_returns(blocks@.subrange(0, i as int)),
        decreases blocks.len() - i,
    {
        let ghost before = out@;
        assert(blocks@.subrange(0, i + 1).drop_last() =~= blocks@.subrange(0, i as int));
        match &blocks[i] {
            DocBlock::Return { ty, description } => {
                let mut inlines: Vec<Inline> = Vec::new();
                match ty {
                    Some(t) => inlines.push(Inline::Code(string_of(chars_of(t.as_str()).as_slice()))),
                    None => {},
                }
                let ghost head = inlines@;
                match description {
                    Some(d) => {
                        if inlines.len() > 0 {
                            inlines.push(Inline::text(" \u{2014} "));
                        }
                        let t = trim_chars(&chars_of(d.as_str()));
                        inlines.push(Inline::Text(string_of(t.as_slice())));
                    },
                    None => {},
                }
                proof {
                    lemma_inlines_v_index(inlines@);
                    lemma_inlines_v_index(head);
                    assert(inlines_v(inlines@) =~= return_inlines(*ty, *description));
                }
                if inlines.len() > 0 {
                    out.push(Block::Paragraph(inlines));
                    proof {
                        lemma_blocks_v_push(before, out@.last());
                        assert(out@ =~= before.push(out@.last()));
                    }
                }
                assert(blocks_v(out@) =~= blocks_v(before) + return_block(blocks@[i as int]));
            },
            DocBlock::Paragraph(text) => {
                let mut more = prose(&chars_of(text.as_str()));
                let ghost added = more@;
                out.append(&mut more);
                proof {
                    lemma_blocks_v_concat(before, added);
                }
            },
            _ => {
                assert(blocks_v(out@) =~= blocks_v(before) + return_block(blocks@[i as int]));
            },
        }
        i = i + 1;
    }
    assert(blocks@.subrange(0, blocks.len() as int) =~= blocks@);
    out
}

/// Where the first `"` of `s` from `i` stands, if it holds one.
pub open spec fn first_quote(s: Seq<char>, i: int) -> Option<int>
    decreases s.len() - i,
{
    if i < 0 || i >= s.len() {
        None
    } else if s[i] == '"' {
        Some(i)
    } else {
        first_quote(s, i + 1)
    }
}

/// Where the last `"` of `s[..n]` stands, if it holds one.
pub open spec fn last_quote(s: Seq<char>, n: int) -> Option<int>
    decreases n,
{
    if n <= 0 || n > s.len() {
        None
    } else if s[n - 1] == '"' {
        Some(n - 1)
    } else {
        last_quote(s, n - 1)
    }
}

/// Where the first `}` of `s` from `i` stands.
pub open spec fn brace_at(s: Seq<char>, i: int) -> Option<int>
    decreases s.len() - i,
{
    if i < 0 || i >= s.len() {
        None
    } else if s[i] == '}' {
        Some(i)
    } else {
        brace_at(s, i + 1)
    }
}

/// The character a `\u{..}` escape opening `s` stands for, and how long
/// the escape is: hexadecimal digits naming a Unicode scalar value.
pub open spec fn unicode_escape(s: Seq<char>) -> Option<(char, int)> {
    if s.len() >= 3 && s[0] == '\\' && s[1] == 'u' && s[2] == '{' {
        match brace_at(s, 3) {
            Some(j) => if 3 <= j < s.len() {
                match crate::man::special::parse_hex(s.subrange(3, j)) {
                    Some(v) => if crate::man::special::scalar(v) {
                        Some((v as char, j + 1))
                    } else {
                        None
                    },
                    None => None,
                }
            } else {
                None
            },
            None => None,
        }
    } else {
        None
    }
}

/// `s` with `Debug`'s backslash escapes undone: `\u{..}` stands for the
/// character it names, `\n`, `\t`, `\r` and `\0` for their control
/// characters, and a backslash before any other character for that
/// character.
pub open spec fn unescaped(s: Seq<char>) -> Seq<char>
    decreases s.len(),
{
    if s.len() == 0 {
        s
    } else {
        match unicode_escape(s) {
            Some((c, n)) => seq![c] + unescaped(s.subrange(n, s.len() as int)),
            None => if s[0] == '\\' && s.len() >= 2 {
                seq![escaped(s[1])] + unescaped(s.subrange(2, s.len() as int))
            } else {
                seq![s[0]] + unescaped(s.subrange(1, s.len() as int))
            },
        }
    }
}

/// The character a backslash escape ending in `c` stands for.
pub open spec fn escaped(c: char) -> char {
    if c == 'n' {
        '\n'
    } else if c == 't' {
        '\t'
    } else if c == 'r' {
        '\r'
    } else if c == '0' {
        '\0'
    } else {
        c
    }
}

/// The string quoted in a `Debug` text: what stands between its first and
/// its last `"`, unescaped; the whole text where it quotes nothing.
pub open spec fn quoted_spec(s: Seq<char>) -> Seq<char> {
    match (first_quote(s, 0), last_quote(s, s.len() as int)) {
        (Some(a), Some(b)) => if a < b {
            unescaped(s.subrange(a + 1, b))
        } else {
            s
        },
        _ => s,
    }
}

fn escaped_exec(c: char) -> (r: char)
    ensures
        r == escaped(c),
{
    if c == 'n' {
        '\n'
    } else if c == 't' {
        '\t'
    } else if c == 'r' {
        '\r'
    } else if c == '0' {
        '\0'
    } else {
        c
    }
}

/// The `\u{..}` escape opening `s[i..to]`, if one does.
fn unicode_at(s: &Vec<char>, i: usize, to: usize) -> (r: Option<(char, usize)>)
    requires
        i <= to <= s@.len(),
    ensures
        match r {
            Some((c, n)) => unicode_escape(s@.subrange(i as int, to as int)) == Some((c, n as int)),
            None => unicode_escape(s@.subrange(i as int, to as int)) is None,
        },
{
    let ghost rest = s@.subrange(i as int, to as int);
    if !(to - i > 2 && s[i] == '\\' && s[i + 1] == 'u' && s[i + 2] == '{') {
        return None;
    }
    let mut j = i + 3;
    while j < to && s[j] != '}'
        invariant
            i + 3 <= j <= to <= s@.len(),
            rest == s@.subrange(i as int, to as int),
            brace_at(rest, 3) == brace_at(rest, j - i),
        decreases to - j,
    {
        assert(rest[j - i] == s@[j as int]);
        j = j + 1;
    }
    if j == to {
        return None;
    }
    assert(rest[j - i] == s@[j as int]);
    let digits = slice_chars(s, i + 3, j);
    assert(digits@ =~= rest.subrange(3, j - i));
    assert(digits@.subrange(0, digits@.len() as int) =~= digits@);
    match crate::man::special::parse_hex_exec(&digits, 0) {
        None => None,
        Some(v) => match crate::man::special::char_from_u32(v) {
            Some(c) => Some((c, j - i + 1)),
            None => None,
        },
    }
}

fn unescape_exec(s: &Vec<char>, from: usize, to: usize) -> (r: Vec<char>)
    requires
        from <= to <= s@.len(),
    ensures
        r@ == unescaped(s@.subrange(from as int, to as int)),
{
    let mut out: Vec<char> = Vec::new();
    let mut i = from;
    while i < to
        invariant
            from <= i <= to <= s@.len(),
            out@ + unescaped(s@.subrange(i as int, to as int)) == unescaped(s@.subrange(from as int, to as int)),
        decreases to - i,
    {
        let ghost rest = s@.subrange(i as int, to as int);
        match unicode_at(s, i, to) {
            Some((c, n)) => {
                assert(rest.subrange(n as int, rest.len() as int) =~= s@.subrange(i + n, to as int));
                out.push(c);
                i = i + n;
            },
            None => {
                if s[i] == '\\' && i + 1 < to {
                    assert(rest.subrange(2, rest.len() as int) =~= s@.subrange(i + 2, to as int));
                    out.push(escaped_exec(s[i + 1]));
                    i = i + 2;
                } else {
                    assert(rest.subrange(1, rest.len() as int) =~= s@.subrange(i + 1, to as int));
                    out.push(s[i]);
                    i = i + 1;
                }
            },
        }
        assert(out@ + unescaped(s@.subrange(i as int, to as int)) =~= unescaped(s@.subrange(from as int, to as int)));
    }
    assert(s@.subrange(to as int, to as int) =~= Seq::<char>::empty());
    assert(out@ + Seq::<char>::empty() =~= out@);
    out
}

/// The name an exception entry's `Debug` text quotes.
fn quoted_text(s: &Vec<char>) -> (r: Vec<char>)
    ensures
        r@ == quoted_spec(s@),
{
    let mut a: usize = 0;
    while a < s.len() && s[a] != '"'
        invariant
            a <= s.len(),
            first_quote(s@, 0) == first_quote(s@, a as int),
        decreases s.len() - a,
    {
        a = a + 1;
    }
    let mut b: usize = s.len();
    while b > 0 && s[b - 1] != '"'
        invariant
            b <= s.len(),
            last_quote(s@, s@.len() as int) == last_quote(s@, b as int),
        decreases b,
    {
        b = b - 1;
    }
    if a < s.len() && b > 0 && a < b - 1 {
        unescape_exec(s, a + 1, b - 1)
    } else {
        let mut out: Vec<char> = Vec::new();
        let mut k: usize = 0;
        while k < s.len()
            invariant
                k <= s.len(),
                out@ == s@.subrange(0, k as int),
            decreases s.len() - k,
        {
            out.push(s[k]);
            k = k + 1;
        }
        out
    }
}

fn exceptions_of_blocks(blocks: &Vec<DocBlock>) -> (r: Vec<Param>)
    ensures
        params_v(r@) == gather_raises(blocks@),
{
    let mut out: Vec<Param> = Vec::new();
    let mut i: usize = 0;
    while i < blocks.len()
        invariant
            i <= blocks.len(),
            params_v(out@) == gather_raises(blocks@.subrange(0, i as int)),
        decreases blocks.len() - i,
    {
        let ghost before = out@;
        assert(blocks@.subrange(0, i + 1).drop_last() =~= blocks@.subrange(0, i as int));
        match &blocks[i] {
            DocBlock::Exception { entry, description } => {
                let mut names: Vec<String> = Vec::new();
                names.push(string_of(quoted_text(&chars_of(entry.as_str())).as_slice()));
                assert(names_v(names@) =~= seq![quoted_spec(entry@)]);
                out.push(
                    Param {
                        names,
                        ty: None,
                        default: None,
                        optional: false,
                        body: opt_prose(description),
                    },
                );
                assert(params_v(out@) =~= params_v(before) + raise_block(blocks@[i as int]));
            },
            _ => {
                assert(params_v(out@) =~= params_v(before) + raise_block(blocks@[i as int]));
            },
        }
        i = i + 1;
    }
    assert(blocks@.subrange(0, blocks.len() as int) =~= blocks@);
    out
}

fn free_blocks(blocks: &Vec<DocBlock>) -> (r: Vec<Block>)
    ensures
        blocks_v(r@) == gather_free(blocks@),
{
    let mut out: Vec<Block> = Vec::new();
    let mut i: usize = 0;
    while i < blocks.len()
        invariant
            i <= blocks.len(),
            blocks_v(out@) == gather_free(blocks@.subrange(0, i as int)),
        decreases blocks.len() - i,
    {
        let ghost before = out@;
        assert(blocks@.subrange(0, i + 1).drop_last() =~= blocks@.subrange(0, i as int));
        let mut more: Vec<Block> = match &blocks[i] {
            DocBlock::Paragraph(text) => prose(&chars_of(text.as_str())),
            DocBlock::SeeAlso { names } => vec![joined_code(names)],
            DocBlock::Reference(text) => vec![
                one_paragraph(Inline::Text(string_of(chars_of(text.as_str()).as_slice()))),
            ],
            DocBlock::Attribute { names } => vec![joined_code(names)],
            DocBlock::Method { name } => vec![
                one_paragraph(Inline::Code(string_of(chars_of(name.as_str()).as_slice()))),
            ],
            _ => Vec::new(),
        };
        proof {
            lemma_blocks_v_index(more@);
            assert(blocks_v(more@) =~= free_block(blocks@[i as int]));
        }
        let ghost added = more@;
        out.append(&mut more);
        proof {
            lemma_blocks_v_concat(before, added);
        }
        i = i + 1;
    }
    assert(blocks@.subrange(0, blocks.len() as int) =~= blocks@);
    out
}

fn heading_text(text: &str) -> (r: Vec<Inline>)
    ensures
        inlines_v(r@) == seq![InlineV::Text(text@)],
{
    let mut v: Vec<Inline> = Vec::new();
    v.push(Inline::text(text));
    proof {
        lemma_inlines_v_index(v@);
        assert(inlines_v(v@) =~= seq![InlineV::Text(text@)]);
    }
    v
}

/// `c` in lower case, where it is an ASCII capital.
pub open spec fn ascii_lower(c: char) -> char {
    if 'A' <= c && c <= 'Z' {
        (((c as u32) + 32) as u8) as char
    } else {
        c
    }
}

/// `str::eq_ignore_ascii_case` against `"examples"`.
pub open spec fn is_examples_spec(title: Seq<char>) -> bool {
    title.len() == "examples"@.len() && forall|i: int|
        0 <= i < title.len() ==> ascii_lower(#[trigger] title[i]) == "examples"@[i]
}

fn is_examples(title: &Vec<char>) -> (r: bool)
    ensures
        r == is_examples_spec(title@),
{
    let lower = chars_of("examples");
    if title.len() != lower.len() {
        return false;
    }
    let mut i: usize = 0;
    while i < title.len()
        invariant
            i <= title.len() == lower.len(),
            lower@ == "examples"@,
            forall|j: int| 0 <= j < i ==> ascii_lower(#[trigger] title@[j]) == "examples"@[j],
        decreases title.len() - i,
    {
        let c = title[i];
        let l = if 'A' <= c && c <= 'Z' {
            (((c as u32) + 32) as u8) as char
        } else {
            c
        };
        assert(l == ascii_lower(title@[i as int]));
        if l != lower[i] {
            return false;
        }
        i = i + 1;
    }
    true
}

fn kind_is(section: &DocSection, name: &str) -> (r: bool)
    ensures
        r == (section.kind@ == name@),
{
    crate::text::str_eq(section.kind.as_str(), name)
}

/// Where a docstring section's blocks go, by the section's kind.
pub enum DocRoute {
    Params,
    Value,
    Raises,
    SeeAlso,
    References,
    Attributes,
    Methods,
    Free,
}

/// The route of a section of kind `kind`.
pub open spec fn doc_route(kind: Seq<char>) -> DocRoute {
    if kind == "Parameters"@ || kind == "KeywordParameters"@ || kind == "OtherParameters"@ || kind
        == "Receives"@ {
        DocRoute::Params
    } else if kind == "Returns"@ || kind == "Yields"@ {
        DocRoute::Value
    } else if kind == "Raises"@ || kind == "Warns"@ {
        DocRoute::Raises
    } else if kind == "SeeAlso"@ {
        DocRoute::SeeAlso
    } else if kind == "References"@ {
        DocRoute::References
    } else if kind == "Attributes"@ {
        DocRoute::Attributes
    } else if kind == "Methods"@ {
        DocRoute::Methods
    } else {
        DocRoute::Free
    }
}

/// The parameters sections document, in order.
pub open spec fn doc_params(ss: Seq<DocSection>) -> Seq<ParamV>
    decreases ss.len(),
{
    if ss.len() == 0 {
        seq![]
    } else {
        doc_params(ss.drop_last()) + if doc_route(ss.last().kind@) is Params {
            gather_params(ss.last().blocks@)
        } else {
            seq![]
        }
    }
}

/// What sections say is returned or yielded, in order.
pub open spec fn doc_value(ss: Seq<DocSection>) -> Seq<BlockV>
    decreases ss.len(),
{
    if ss.len() == 0 {
        seq![]
    } else {
        doc_value(ss.drop_last()) + if doc_route(ss.last().kind@) is Value {
            gather_returns(ss.last().blocks@)
        } else {
            seq![]
        }
    }
}

/// The exceptions and warnings sections document, in order.
pub open spec fn doc_raises(ss: Seq<DocSection>) -> Seq<ParamV>
    decreases ss.len(),
{
    if ss.len() == 0 {
        seq![]
    } else {
        doc_raises(ss.drop_last()) + if doc_route(ss.last().kind@) is Raises {
            gather_raises(ss.last().blocks@)
        } else {
            seq![]
        }
    }
}

/// The free blocks of the sections routed to `route`, in order.
pub open spec fn doc_free(ss: Seq<DocSection>, route: DocRoute) -> Seq<BlockV>
    decreases ss.len(),
{
    if ss.len() == 0 {
        seq![]
    } else {
        doc_free(ss.drop_last(), route) + if doc_route(ss.last().kind@) == route {
            gather_free(ss.last().blocks@)
        } else {
            seq![]
        }
    }
}

/// Whether a section is a free-text one titled Examples, in any case.
pub open spec fn is_examples_section(s: DocSection) -> bool {
    &&& doc_route(s.kind@) is Free
    &&& s.free matches Some(t) && is_examples_spec(t@)
}

/// The examples sections give, in order.
pub open spec fn doc_examples(ss: Seq<DocSection>) -> Seq<(Seq<char>, bool)>
    decreases ss.len(),
{
    if ss.len() == 0 {
        seq![]
    } else {
        doc_examples(ss.drop_last()) + if is_examples_section(ss.last()) {
            gather_examples(ss.last().blocks@)
        } else {
            seq![]
        }
    }
}

/// The section a docstring section becomes, if any: Attributes and Methods
/// under those titles, a free-text section other than Examples under its
/// own title, and a section of any other kind under its kind's name.
pub open spec fn section_of(s: DocSection) -> Option<SectionV> {
    match doc_route(s.kind@) {
        DocRoute::Attributes => Some((seq![InlineV::Text("Attributes"@)], gather_free(s.blocks@))),
        DocRoute::Methods => Some((seq![InlineV::Text("Methods"@)], gather_free(s.blocks@))),
        DocRoute::Free => match s.free {
            Some(t) => if is_examples_spec(t@) {
                None
            } else {
                Some((seq![InlineV::Text(t@)], gather_free(s.blocks@)))
            },
            None => Some((seq![InlineV::Text(s.kind@)], gather_free(s.blocks@))),
        },
        _ => None,
    }
}

/// The sections a docstring's sections become, in order.
pub open spec fn doc_sections(ss: Seq<DocSection>) -> Seq<SectionV>
    decreases ss.len(),
{
    if ss.len() == 0 {
        seq![]
    } else {
        match section_of(ss.last()) {
            Some(x) => doc_sections(ss.drop_last()).push(x),
            None => doc_sections(ss.drop_last()),
        }
    }
}

/// A docstring's topic: its summary is the title, its extended summary the
/// description, and each section routed to the part of the topic it
/// documents, in order.
pub open spec fn docstring_topic(name: Seq<char>, signature: Option<Seq<char>>, doc: Docstring, t: Topic) -> bool {
    &&& t.name@ == name
    &&& opt_text(t.signature) == signature
    &&& t.lang matches Some(l) && l@ == "python"@
    &&& match doc.summary {
        Some(s) => t.title@.len() == 1 && is_text(t.title@[0], trim(s@)),
        None => t.title@.len() == 0,
    }
    &&& match doc.extended_summary {
        Some(e) => paragraphs_are(t.description@, paragraphs(e@)),
        None => t.description@.len() == 0,
    }
    &&& blocks_v(t.description@) == opt_prose_v(doc.extended_summary)
    &&& params_v(t.params@) == doc_params(doc.sections@)
    &&& blocks_v(t.value@) == doc_value(doc.sections@)
    &&& params_v(t.raises@) == doc_raises(doc.sections@)
    &&& blocks_v(t.seealso@) == doc_free(doc.sections@, DocRoute::SeeAlso)
    &&& blocks_v(t.references@) == doc_free(doc.sections@, DocRoute::References)
    &&& examples_v(t.examples@) == doc_examples(doc.sections@)
    &&& sections_v(t.sections@) == doc_sections(doc.sections@)
    &&& t.aliases@.len() == 0
    &&& t.keywords@.len() == 0
    &&& t.details@.len() == 0
    &&& t.note@.len() == 0
    &&& t.author@.len() == 0
}

/// A Yields section documents the value as a Returns section does: a
/// docstring with one more such section at its end gives a topic whose
/// value is the other's followed by what the section's entries say, with
/// no section, parameter or exception added.
pub proof fn law_yields_document_the_value(
    name: Seq<char>,
    signature: Option<Seq<char>>,
    d1: Docstring,
    d2: Docstring,
    s: DocSection,
    t: Topic,
    u: Topic,
)
    requires
        s.kind@ == "Yields"@ || s.kind@ == "Returns"@,
        d2.sections@ == d1.sections@.push(s),
        docstring_topic(name, signature, d1, t),
        docstring_topic(name, signature, d2, u),
    ensures
        blocks_v(u.value@) == blocks_v(t.value@) + gather_returns(s.blocks@),
        sections_v(u.sections@) == sections_v(t.sections@),
        params_v(u.params@) == params_v(t.params@),
        params_v(u.raises@) == params_v(t.raises@),
{
    reveal_strlit("Yields");
    reveal_strlit("Returns");
    reveal_strlit("Parameters");
    reveal_strlit("KeywordParameters");
    reveal_strlit("OtherParameters");
    reveal_strlit("Receives");
    assert("Returns"@[0] == 'R' && "Returns"@[2] == 't');
    assert("Receives"@[0] == 'R' && "Receives"@[2] == 'c');
    assert("Yields"@.len() == 6 && "Returns"@.len() == 7 && "Parameters"@.len() == 10 && "KeywordParameters"@.len()
        == 17 && "OtherParameters"@.len() == 15 && "Receives"@.len() == 8);
    assert(s.kind@ != "Parameters"@ && s.kind@ != "KeywordParameters"@ && s.kind@ != "OtherParameters"@
        && s.kind@ != "Receives"@);
    assert(doc_route(s.kind@) is Value);
    assert(d2.sections@.drop_last() =~= d1.sections@);
    assert(d2.sections@.last() == s);
}

/// Whether `t` holds what the sections `ss` put in a topic.
pub open spec fn sections_read(t: Topic, ss: Seq<DocSection>) -> bool {
    &&& params_v(t.params@) == doc_params(ss)
    &&& blocks_v(t.value@) == doc_value(ss)
    &&& params_v(t.raises@) == doc_raises(ss)
    &&& blocks_v(t.seealso@) == doc_free(ss, DocRoute::SeeAlso)
    &&& blocks_v(t.references@) == doc_free(ss, DocRoute::References)
    &&& examples_v(t.examples@) == doc_examples(ss)
    &&& sections_v(t.sections@) == doc_sections(ss)
}

/// Whether `a` and `b` agree on everything but what the sections fill.
pub open spec fn same_head(a: Topic, b: Topic) -> bool {
    &&& a.name == b.name
    &&& a.signature == b.signature
    &&& a.lang == b.lang
    &&& a.title == b.title
    &&& a.description == b.description
    &&& a.aliases == b.aliases
    &&& a.keywords == b.keywords
    &&& a.details == b.details
    &&& a.note == b.note
    &&& a.author == b.author
}

/// Append `more` to `v`.
fn append_params(v: &mut Vec<Param>, more: Vec<Param>)
    ensures
        params_v(final(v)@) == params_v(old(v)@) + params_v(more@),
{
    let mut more = more;
    let ghost a = v@;
    let ghost b = more@;
    v.append(&mut more);
    assert(params_v(v@) =~= params_v(a) + params_v(b));
}

/// Append `more` to `v`.
fn append_blocks(v: &mut Vec<Block>, more: Vec<Block>)
    ensures
        blocks_v(final(v)@) == blocks_v(old(v)@) + blocks_v(more@),
{
    let mut more = more;
    let ghost a = v@;
    let ghost b = more@;
    v.append(&mut more);
    proof {
        lemma_blocks_v_concat(a, b);
    }
}

/// Add the examples of an Examples section's blocks to `topic`.
fn push_examples(topic: &mut Topic, blocks: &Vec<DocBlock>)
    ensures
        examples_v(final(topic).examples@) == examples_v(old(topic).examples@) + gather_examples(blocks@),
        final(topic).params == old(topic).params,
        final(topic).value == old(topic).value,
        final(topic).raises == old(topic).raises,
        final(topic).seealso == old(topic).seealso,
        final(topic).references == old(topic).references,
        final(topic).sections == old(topic).sections,
        same_head(*final(topic), *old(topic)),
{
    let ghost start = examples_v(topic.examples@);
    let mut k: usize = 0;
    while k < blocks.len()
        invariant
            k <= blocks.len(),
            examples_v(topic.examples@) == start + gather_examples(blocks@.subrange(0, k as int)),
            topic.params == old(topic).params,
            topic.value == old(topic).value,
            topic.raises == old(topic).raises,
            topic.seealso == old(topic).seealso,
            topic.references == old(topic).references,
            topic.sections == old(topic).sections,
            same_head(*topic, *old(topic)),
        decreases blocks.len() - k,
    {
        let ghost before = topic.examples@;
        assert(blocks@.subrange(0, k + 1).drop_last() =~= blocks@.subrange(0, k as int));
        match &blocks[k] {
            DocBlock::Paragraph(text) => {
                let code = strip_prompts(&chars_of(text.as_str()));
                topic.examples.push(Example { code: string_of(code.as_slice()), run: true });
                assert(examples_v(topic.examples@) =~= examples_v(before).push((strip_prompts_spec(text@), true)));
            },
            _ => {},
        }
        assert(examples_v(topic.examples@) =~= start + gather_examples(blocks@.subrange(0, k + 1)));
        k = k + 1;
    }
    assert(blocks@.subrange(0, blocks.len() as int) =~= blocks@);
}

/// Route one docstring section's blocks into `topic`.
fn read_section(topic: &mut Topic, section: &DocSection)
    ensures
        params_v(final(topic).params@) == params_v(old(topic).params@) + if doc_route(section.kind@) is Params {
            gather_params(section.blocks@)
        } else {
            seq![]
        },
        blocks_v(final(topic).value@) == blocks_v(old(topic).value@) + if doc_route(section.kind@) is Value {
            gather_returns(section.blocks@)
        } else {
            seq![]
        },
        params_v(final(topic).raises@) == params_v(old(topic).raises@) + if doc_route(section.kind@) is Raises {
            gather_raises(section.blocks@)
        } else {
            seq![]
        },
        blocks_v(final(topic).seealso@) == blocks_v(old(topic).seealso@) + if doc_route(section.kind@) is SeeAlso {
            gather_free(section.blocks@)
        } else {
            seq![]
        },
        blocks_v(final(topic).references@) == blocks_v(old(topic).references@) + if doc_route(section.kind@) is References {
            gather_free(section.blocks@)
        } else {
            seq![]
        },
        examples_v(final(topic).examples@) == examples_v(old(topic).examples@) + if is_examples_section(*section) {
            gather_examples(section.blocks@)
        } else {
            seq![]
        },
        sections_v(final(topic).sections@) == match section_of(*section) {
            Some(x) => sections_v(old(topic).sections@).push(x),
            None => sections_v(old(topic).sections@),
        },
        same_head(*final(topic), *old(topic)),
{
    let ghost t0 = *topic;
    let blocks = &section.blocks;
    assert(params_v(topic.params@) =~= params_v(t0.params@) + seq![]);
    assert(blocks_v(topic.value@) =~= blocks_v(t0.value@) + seq![]);
    assert(params_v(topic.raises@) =~= params_v(t0.raises@) + seq![]);
    assert(blocks_v(topic.seealso@) =~= blocks_v(t0.seealso@) + seq![]);
    assert(blocks_v(topic.references@) =~= blocks_v(t0.references@) + seq![]);
    assert(examples_v(topic.examples@) =~= examples_v(t0.examples@) + seq![]);
    if kind_is(section, "Parameters") || kind_is(section, "KeywordParameters") || kind_is(
        section,
        "OtherParameters",
    ) || kind_is(section, "Receives") {
        append_params(&mut topic.params, params_of_blocks(blocks));
    } else if kind_is(section, "Returns") || kind_is(section, "Yields") {
        append_blocks(&mut topic.value, returns_of_blocks(blocks));
    } else if kind_is(section, "Raises") || kind_is(section, "Warns") {
        append_params(&mut topic.raises, exceptions_of_blocks(blocks));
    } else if kind_is(section, "SeeAlso") {
        append_blocks(&mut topic.seealso, free_blocks(blocks));
    } else if kind_is(section, "References") {
        append_blocks(&mut topic.references, free_blocks(blocks));
    } else if kind_is(section, "Attributes") {
        topic.sections.push(Section { title: heading_text("Attributes"), body: free_blocks(blocks) });
        assert(sections_v(topic.sections@) =~= sections_v(t0.sections@).push(section_of(*section)->0));
    } else if kind_is(section, "Methods") {
        topic.sections.push(Section { title: heading_text("Methods"), body: free_blocks(blocks) });
        assert(sections_v(topic.sections@) =~= sections_v(t0.sections@).push(section_of(*section)->0));
    } else {
        match &section.free {
            Some(title) => {
                let t = chars_of(title.as_str());
                if is_examples(&t) {
                    push_examples(topic, blocks);
                } else {
                    let mut title_inlines: Vec<Inline> = Vec::new();
                    title_inlines.push(Inline::Text(string_of(t.as_slice())));
                    proof {
                        lemma_inlines_v_index(title_inlines@);
                        assert(inlines_v(title_inlines@) =~= seq![InlineV::Text(title@)]);
                    }
                    topic.sections.push(Section { title: title_inlines, body: free_blocks(blocks) });
                    assert(sections_v(topic.sections@) =~= sections_v(t0.sections@).push(section_of(*section)->0));
                }
            },
            None => {
                let mut title_inlines: Vec<Inline> = Vec::new();
                title_inlines.push(Inline::Text(string_of(chars_of(section.kind.as_str()).as_slice())));
                proof {
                    lemma_inlines_v_index(title_inlines@);
                    assert(inlines_v(title_inlines@) =~= seq![InlineV::Text(section.kind@)]);
                }
                topic.sections.push(Section { title: title_inlines, body: free_blocks(blocks) });
                assert(sections_v(topic.sections@) =~= sections_v(t0.sections@).push(section_of(*section)->0));
            },
        }
    }
}

/// Map a parsed docstring onto the topic model.
pub fn from_docstring(name: &Vec<char>, signature: Option<Vec<char>>, doc: &Docstring) -> (r: Topic)
    ensures
        docstring_topic(
            name@,
            match signature {
                Some(s) => Some(s@),
                None => None,
            },
            *doc,
            r,
        ),
{
    let name_string = string_of(name.as_slice());
    let mut topic = Topic::new(name_string.as_str());
    topic.signature = match signature {
        Some(s) => Some(string_of(s.as_slice())),
        None => None,
    };
    topic.lang = Some(owned("python"));
    match &doc.summary {
        Some(summary) => {
            let mut title: Vec<Inline> = Vec::new();
            title.push(Inline::Text(string_of(trim_chars(&chars_of(summary.as_str())).as_slice())));
            topic.title = title;
        },
        None => {},
    }
    match &doc.extended_summary {
        Some(extended) => {
            topic.description = prose(&chars_of(extended.as_str()));
        },
        None => {},
    }
    let ghost fixed = topic;
    let ss = &doc.sections;
    assert(examples_v(topic.examples@) =~= Seq::<(Seq<char>, bool)>::empty());
    assert(sections_v(topic.sections@) =~= Seq::<SectionV>::empty());
    assert(params_v(topic.params@) =~= Seq::<ParamV>::empty());
    assert(params_v(topic.raises@) =~= Seq::<ParamV>::empty());
    assert(ss@.subrange(0, 0) =~= Seq::<DocSection>::empty());
    let mut i: usize = 0;
    while i < ss.len()
        invariant
            i <= ss.len(),
            ss == &doc.sections,
            same_head(topic, fixed),
            sections_read(topic, ss@.subrange(0, i as int)),
        decreases ss.len() - i,
    {
        let ghost before = ss@.subrange(0, i as int);
        assert(ss@.subrange(0, i + 1).drop_last() =~= before);
        assert(ss@.subrange(0, i + 1).last() == ss@[i as int]);
        read_section(&mut topic, &ss[i]);
        i = i + 1;
    }
    assert(ss@.subrange(0, ss.len() as int) =~= ss@);
    topic
}

// -- the module -------------------------------------------------------------------

/// The docstring of a module, function, or class: a bare string expression in
/// first statement position.
pub open spec fn leading_doc(body: Seq<PyStmt>) -> Option<String> {
    if body.len() > 0 {
        match body[0] {
            PyStmt::Str { value } => Some(value),
            _ => None,
        }
    } else {
        None
    }
}

fn leading_docstring(body: &Vec<PyStmt>) -> (r: Option<&String>)
    ensures
        match r {
            Some(d) => leading_doc(body@) == Some(*d),
            None => leading_doc(body@) is None,
        },
{
    if body.len() == 0 {
        return None;
    }
    match &body[0] {
        PyStmt::Str { value } => Some(value),
        _ => None,
    }
}

/// Whether every topic is one the Python reader made.
pub open spec fn all_python(topics: Seq<Topic>) -> bool {
    forall|k: int| 0 <= k < topics.len() ==> is_python(#[trigger] topics[k])
}

/// Whether a topic's source language is Python.
pub open spec fn is_python(t: Topic) -> bool {
    t.lang matches Some(l) && l@ == "python"@
}

/// A documented entity: its qualified name, its signature where it is a
/// function, and its docstring.
pub type Entity = (Seq<char>, Option<Seq<char>>, Seq<char>);

/// The `def` line of a function, `async ` before it for a coroutine.
pub open spec fn def_line(name: Seq<char>, args: PyArguments, is_async: bool) -> Seq<char> {
    if is_async {
        "async "@ + signature_spec(name, args)
    } else {
        signature_spec(name, args)
    }
}

/// The documented entities a statement holds, under `prefix`: a function
/// with a docstring; a class with a docstring, then those of its body.
pub open spec fn stmt_entities(st: PyStmt, prefix: Seq<char>) -> Seq<Entity>
    decreases st,
{
    match st {
        PyStmt::Def { name, args, body, is_async } => match leading_doc(body@) {
            Some(d) => seq![(qualify_spec(prefix, name@), Some(def_line(name@, args, is_async)), d@)],
            None => seq![],
        },
        PyStmt::Class { name, body } => (match leading_doc(body@) {
            Some(d) => seq![(qualify_spec(prefix, name@), None, d@)],
            None => seq![],
        }) + body_entities(body@, qualify_spec(prefix, name@)),
        _ => seq![],
    }
}

/// The documented entities of a body of statements, under `prefix`, in
/// source order.
pub open spec fn body_entities(body: Seq<PyStmt>, prefix: Seq<char>) -> Seq<Entity>
    decreases body,
{
    if body.len() == 0 {
        seq![]
    } else {
        body_entities(body.drop_last(), prefix) + stmt_entities(body.last(), prefix)
    }
}

/// Whether `t` is the topic of entity `e`.
pub open spec fn entity_topic(e: Entity, t: Topic) -> bool {
    docstring_topic(e.0, e.1, docstring_model(e.2), t)
}

/// Whether `ts` are the topics of the entities `es`, one for one.
pub open spec fn topics_are(ts: Seq<Topic>, es: Seq<Entity>) -> bool {
    ts.len() == es.len() && forall|k: int| 0 <= k < ts.len() ==> entity_topic(es[k], #[trigger] ts[k])
}

proof fn lemma_topics_are_concat(a: Seq<Topic>, ea: Seq<Entity>, b: Seq<Topic>, eb: Seq<Entity>)
    requires
        topics_are(a, ea),
        topics_are(b, eb),
    ensures
        topics_are(a + b, ea + eb),
{
    assert forall|k: int| 0 <= k < (a + b).len() implies entity_topic((ea + eb)[k], #[trigger] (a + b)[k]) by {
        if k < a.len() {
            assert((a + b)[k] == a[k]);
        } else {
            assert((a + b)[k] == b[k - a.len()]);
        }
    }
}

proof fn lemma_topics_python(ts: Seq<Topic>, es: Seq<Entity>)
    requires
        topics_are(ts, es),
    ensures
        all_python(ts),
{
    assert forall|k: int| 0 <= k < ts.len() implies is_python(#[trigger] ts[k]) by {
        assert(entity_topic(es[k], ts[k]));
    }
}

/// The topic of one documented entity, pushed onto `out`.
fn push_entity(out: &mut Vec<Topic>, topic: Topic, Ghost(e): Ghost<Entity>)
    requires
        entity_topic(e, topic),
    ensures
        final(out)@ == old(out)@.push(topic),
{
    out.push(topic);
}

fn collect(body: &Vec<PyStmt>, prefix: &Vec<char>, out: &mut Vec<Topic>)
    ensures
        final(out)@.len() >= old(out)@.len(),
        final(out)@.subrange(0, old(out)@.len() as int) == old(out)@,
        topics_are(
            final(out)@.subrange(old(out)@.len() as int, final(out)@.len() as int),
            body_entities(body@, prefix@),
        ),
    decreases body@,
{
    let ghost start = out@;
    let mut i: usize = 0;
    assert(out@.subrange(0, start.len() as int) =~= start);
    assert(body@.subrange(0, 0) =~= Seq::<PyStmt>::empty());
    assert(out@.subrange(start.len() as int, out@.len() as int) =~= Seq::<Topic>::empty());
    while i < body.len()
        invariant
            i <= body.len(),
            out@.len() >= start.len(),
            out@.subrange(0, start.len() as int) == start,
            topics_are(
                out@.subrange(start.len() as int, out@.len() as int),
                body_entities(body@.subrange(0, i as int), prefix@),
            ),
        decreases body.len() - i,
    {
        let ghost mid = out@;
        let ghost done = out@.subrange(start.len() as int, out@.len() as int);
        let ghost done_e = body_entities(body@.subrange(0, i as int), prefix@);
        assert(body@.subrange(0, i + 1).drop_last() =~= body@.subrange(0, i as int));
        assert(body@.subrange(0, i + 1).last() == body@[i as int]);
        match &body[i] {
            PyStmt::Def { name, args, body: inner, is_async } => {
                let n = chars_of(name.as_str());
                let qualified = qualify(prefix, &n);
                match leading_docstring(inner) {
                    Some(text) => {
                        let doc = parse_docstring(text.as_str());
                        let sig = signature(&n, args);
                        let sig = if *is_async {
                            let mut t = chars_of("async ");
                            push_chars(&mut t, &sig);
                            t
                        } else {
                            sig
                        };
                        let topic = from_docstring(&qualified, Some(sig), &doc);
                        let ghost e: Entity = (qualified@, Some(def_line(name@, *args, *is_async)), text@);
                        push_entity(out, topic, Ghost(e));
                        proof {
                            assert(stmt_entities(body@[i as int], prefix@) =~= seq![e]);
                            assert(topics_are(seq![out@.last()], seq![e]));
                            lemma_topics_are_concat(done, done_e, seq![out@.last()], seq![e]);
                            assert(out@.subrange(start.len() as int, out@.len() as int) =~= done + seq![out@.last()]);
                            assert(out@.subrange(0, start.len() as int) =~= mid.subrange(0, start.len() as int));
                        }
                    },
                    None => {
                        assert(stmt_entities(body@[i as int], prefix@) =~= Seq::<Entity>::empty());
                        assert(done_e + Seq::<Entity>::empty() =~= done_e);
                    },
                }
            },
            PyStmt::Class { name, body: inner } => {
                let qualified = qualify(prefix, &chars_of(name.as_str()));
                let ghost head: Seq<Entity> = match leading_doc(inner@) {
                    Some(d) => seq![(qualified@, None, d@)],
                    None => seq![],
                };
                match leading_docstring(inner) {
                    Some(text) => {
                        let topic = from_docstring(&qualified, None, &parse_docstring(text.as_str()));
                        let ghost e: Entity = (qualified@, None, text@);
                        push_entity(out, topic, Ghost(e));
                        proof {
                            assert(head =~= seq![e]);
                            assert(topics_are(seq![out@.last()], seq![e]));
                            lemma_topics_are_concat(done, done_e, seq![out@.last()], seq![e]);
                            assert(out@.subrange(start.len() as int, out@.len() as int) =~= done + seq![out@.last()]);
                            assert(out@.subrange(0, start.len() as int) =~= mid.subrange(0, start.len() as int));
                        }
                    },
                    None => {
                        assert(done_e + head =~= done_e);
                    },
                }
                // Methods are documented as topics of their own.
                proof {
                    assert(decreases_to!(body@ => body@[i as int]));
                    assert(decreases_to!(body@ => inner@));
                }
                let ghost before = out@;
                collect(inner, &qualified, out);
                proof {
                    let added = out@.subrange(before.len() as int, out@.len() as int);
                    let inner_e = body_entities(inner@, qualified@);
                    lemma_topics_are_concat(
                        before.subrange(start.len() as int, before.len() as int),
                        done_e + head,
                        added,
                        inner_e,
                    );
                    assert(out@.subrange(start.len() as int, out@.len() as int) =~= before.subrange(
                        start.len() as int,
                        before.len() as int,
                    ) + added);
                    assert(out@.subrange(0, start.len() as int) =~= before.subrange(0, start.len() as int));
                    assert(stmt_entities(body@[i as int], prefix@) == head + inner_e);
                    assert(done_e + head + inner_e =~= done_e + (head + inner_e));
                }
            },
            _ => {
                assert(stmt_entities(body@[i as int], prefix@) =~= Seq::<Entity>::empty());
                assert(done_e + Seq::<Entity>::empty() =~= done_e);
            },
        }
        i = i + 1;
    }
    assert(body@.subrange(0, body.len() as int) =~= body@);
}

/// The module a file holds, named by the file: the last path segment,
/// without its `.py` extension.
pub open spec fn module_name_spec(path: Seq<char>) -> Seq<char> {
    strip_py(path.subrange(last_slash(path, path.len() as int), path.len() as int))
}

/// Where the last path segment of `path[..n]` starts.
pub open spec fn last_slash(path: Seq<char>, n: int) -> int
    decreases n,
{
    if n <= 0 {
        0
    } else if path[n - 1] == '/' {
        n
    } else {
        last_slash(path, n - 1)
    }
}

/// `s` without every trailing `.py` (`str::trim_end_matches`).
pub open spec fn strip_py(s: Seq<char>) -> Seq<char>
    decreases s.len(),
{
    if crate::text::ends_with(s, ".py"@) && s.len() >= 3 {
        strip_py(s.subrange(0, s.len() - 3))
    } else {
        s
    }
}

pub(crate) fn module_name(path: &Vec<char>) -> (r: Vec<char>)
    ensures
        r@ == module_name_spec(path@),
{
    let mut n = path.len();
    while n > 0 && path[n - 1] != '/'
        invariant
            n <= path.len(),
            last_slash(path@, path.len() as int) == last_slash(path@, n as int),
        decreases n,
    {
        n = n - 1;
    }
    let mut seg = slice_chars(path, n, path.len());
    proof {
        reveal_strlit(".py");
    }
    while crate::text::ends_with_exec(&seg, ".py")
        invariant
            strip_py(seg@) == module_name_spec(path@),
            ".py"@.len() == 3,
        decreases seg.len(),
    {
        let cut = seg.len() - 3;
        seg = slice_chars(&seg, 0, cut);
    }
    seg
}

/// The documented entities of a module named `module`: the module itself
/// where it has a docstring, then those of its body.
pub open spec fn module_entities(body: Seq<PyStmt>, module: Seq<char>) -> Seq<Entity> {
    (match leading_doc(body) {
        Some(d) => seq![(module, None, d@)],
        None => seq![],
    }) + body_entities(body, module)
}

/// Every documented entity of a module, in source order: the module
/// itself, under `module`, then each documented function and class, and
/// the methods of each class after it.
pub fn from_module(body: &Vec<PyStmt>, module: &str) -> (r: Vec<Topic>)
    ensures
        all_python(r@),
        topics_are(r@, module_entities(body@, module@)),
{
    let module = chars_of(module);
    let mut topics: Vec<Topic> = Vec::new();
    let ghost head: Seq<Entity> = match leading_doc(body@) {
        Some(d) => seq![(module@, None, d@)],
        None => seq![],
    };
    match leading_docstring(body) {
        Some(text) => {
            let topic = from_docstring(&module, None, &parse_docstring(text.as_str()));
            push_entity(&mut topics, topic, Ghost((module@, None, text@)));
            assert(topics_are(topics@, head));
        },
        None => {
            assert(topics_are(topics@, head));
        },
    }
    let ghost first = topics@;
    collect(body, &module, &mut topics);
    proof {
        let added = topics@.subrange(first.len() as int, topics@.len() as int);
        lemma_topics_are_concat(first, head, added, body_entities(body@, module@));
        assert(topics@ =~= topics@.subrange(0, first.len() as int) + added);
        lemma_topics_python(topics@, module_entities(body@, module@));
    }
    topics
}

/// Why Python source could not be parsed.
#[derive(Debug)]
pub struct PythonError {
    /// The parser's own account of the failure.
    pub message: String,
}

/// Parse Python source read from `path` and convert every documented
/// entity to a [`Topic`], the module's own under the dotted name `module`.
pub fn parse_module(source: &str, path: &str, module: &str) -> (r: Result<Vec<Topic>, PythonError>)
    ensures
        r is Ok <==> python_parses(source@, path@),
        r matches Ok(topics) ==> all_python(topics@),
        r matches Ok(topics) ==> topics_are(topics@, module_entities(python_suite(source@, path@), module@)),
        r matches Err(e) ==> e.message@ == python_refusal(source@, path@),
{
    match parse_suite(source, path) {
        Ok(suite) => Ok(from_module(&suite, module)),
        Err(message) => Err(PythonError { message }),
    }
}

/// Parse Python source and convert every documented entity to a [`Topic`].
///
/// Module, functions, and classes each become one topic, in source order;
/// the module is named by the file, the last segment of `path` without its
/// `.py`.
pub fn parse(source: &str, path: &str) -> (r: Result<Vec<Topic>, PythonError>)
    ensures
        r is Ok <==> python_parses(source@, path@),
        r matches Ok(topics) ==> all_python(topics@),
        r matches Ok(topics) ==> topics_are(
            topics@,
            module_entities(python_suite(source@, path@), module_name_spec(path@)),
        ),
        r matches Err(e) ==> e.message@ == python_refusal(source@, path@),
{
    let module = string_of(module_name(&chars_of(path)).as_slice());
    parse_module(source, path, module.as_str())
}

} // verus!
