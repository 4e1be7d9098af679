//! Turning a stream of roff events into nested blocks: paragraphs, `.TP`
//! term lists, `.IP` lists and `.RS` indents.

use vstd::prelude::*;

use crate::ir::{Block, Inline, Term};
use crate::text::{chars_of, has_non_ws, has_non_ws_exec, string_of, trim_end, trim_end_chars, trim_start, trim_start_chars};

verus! {

broadcast use vstd::std_specs::vec::axiom_vec_decreases_to_view;

// -- inline runs ------------------------------------------------------------------

/// Whitespace-only text and line breaks: what a paragraph may not start or
/// end with.
pub open spec fn blank(x: Inline) -> bool {
    match x {
        Inline::Text(t) => !has_non_ws(t@),
        Inline::LineBreak => true,
        _ => false,
    }
}

pub(crate) fn is_blank_text(inline: &Inline) -> (r: bool)
    ensures
        r == blank(*inline),
{
    match inline {
        Inline::Text(text) => {
            let v = chars_of(text.as_str());
            !has_non_ws_exec(&v)
        },
        Inline::LineBreak => true,
        _ => false,
    }
}

/// The first index at or after `i` that is not blank.
pub open spec fn lead(s: Seq<Inline>, i: int) -> int
    decreases s.len() - i,
{
    if 0 <= i < s.len() && blank(s[i]) {
        lead(s, i + 1)
    } else {
        i
    }
}

/// The end of `s` below `j`, and not below `a`, once trailing blanks are
/// dropped.
pub open spec fn trail(s: Seq<Inline>, a: int, j: int) -> int
    decreases j - a,
{
    if a < j <= s.len() && blank(s[j - 1]) {
        trail(s, a, j - 1)
    } else {
        j
    }
}

/// Trim the start of the first text, the end of the last.
pub open spec fn edge_trim(t: Seq<char>, first: bool, last: bool) -> Seq<char> {
    let t1 = if first {
        trim_start(t)
    } else {
        t
    };
    if last {
        trim_end(t1)
    } else {
        t1
    }
}

/// `y` is `x`, with its text trimmed at the edges named.
pub open spec fn retrimmed(y: Inline, x: Inline, first: bool, last: bool) -> bool {
    match x {
        Inline::Text(t) => match y {
            Inline::Text(u) => u@ == edge_trim(t@, first, last),
            _ => false,
        },
        _ => y == x,
    }
}

/// `r` is the run `s` with leading and trailing whitespace dropped.
pub open spec fn trimmed(r: Seq<Inline>, s: Seq<Inline>) -> bool {
    let a = lead(s, 0);
    let b = trail(s, a, s.len() as int);
    &&& r.len() == b - a
    &&& forall|k: int|
        #![trigger r[k]]
        0 <= k < r.len() ==> retrimmed(r[k], s[a + k], k == 0, k == r.len() - 1)
}

proof fn lemma_lead(s: Seq<Inline>, i: int)
    requires
        0 <= i <= s.len(),
    ensures
        i <= lead(s, i) <= s.len(),
    decreases s.len() - i,
{
    if i < s.len() && blank(s[i]) {
        lemma_lead(s, i + 1);
    }
}

proof fn lemma_trail(s: Seq<Inline>, a: int, j: int)
    requires
        0 <= a <= j <= s.len(),
    ensures
        a <= trail(s, a, j) <= j,
    decreases j - a,
{
    if a < j && blank(s[j - 1]) {
        lemma_trail(s, a, j - 1);
    }
}

fn retrim(x: Inline, first: bool, last: bool) -> (r: Inline)
    ensures
        retrimmed(r, x, first, last),
{
    match x {
        Inline::Text(t) => {
            let mut v = chars_of(t.as_str());
            if first {
                v = trim_start_chars(&v);
            }
            if last {
                v = trim_end_chars(&v);
            }
            Inline::Text(string_of(v.as_slice()))
        },
        other => other,
    }
}

/// Drop leading and trailing whitespace from an inline run.
pub(crate) fn trim_inlines(inlines: Vec<Inline>) -> (r: Vec<Inline>)
    ensures
        trimmed(r@, inlines@),
{
    let ghost s = inlines@;
    let mut v = inlines;
    let ghost mut a: int = 0;
    proof {
        lemma_lead(s, 0);
    }
    while v.len() > 0 && is_blank_text(&v[0])
        invariant
            0 <= a <= s.len(),
            v@ == s.subrange(a, s.len() as int),
            lead(s, 0) == lead(s, a),
        decreases v.len(),
    {
        v.remove(0);
        proof {
            a = a + 1;
        }
    }
    let ghost la = a;
    assert(lead(s, a) == a);
    let ghost mut b: int = s.len() as int;
    proof {
        lemma_trail(s, a, b);
    }
    while v.len() > 0 && is_blank_text(&v[v.len() - 1])
        invariant
            a == la,
            0 <= a,
            la == lead(s, 0),
            a <= b <= s.len(),
            v@ == s.subrange(a, b),
            trail(s, a, s.len() as int) == trail(s, a, b),
        decreases v.len(),
    {
        v.pop();
        proof {
            b = b - 1;
        }
    }
    assert(trail(s, a, b) == b);
    let n = v.len();
    if n == 0 {
        return v;
    }
    let first = v.remove(0);
    let first = retrim(first, true, n == 1);
    v.insert(0, first);
    if n > 1 {
        let last = v.pop().unwrap();
        let last = retrim(last, false, true);
        v.push(last);
    }
    proof {
        assert forall|k: int| #![trigger v@[k]] 0 <= k < v@.len() implies retrimmed(
            v@[k],
            s[a + k],
            k == 0,
            k == v@.len() - 1,
        ) by {
            if k != 0 && k != v@.len() - 1 {
                assert(s.subrange(a, b)[k] == s[a + k]);
            }
        }
    }
    v
}

/// `z` is `x`, then, where `space`, a single-space text, then `y`.
pub open spec fn joined(x: Seq<Inline>, y: Seq<Inline>, space: bool, z: Seq<Inline>) -> bool {
    let sp: int = if space {
        1
    } else {
        0
    };
    &&& z.len() == x.len() + sp + y.len()
    &&& z.subrange(0, x.len() as int) == x
    &&& (space ==> crate::man::roff::is_text(z[x.len() as int], " "@))
    &&& z.subrange(x.len() + sp, z.len() as int) == y
}

/// Whether two runs in the same font meet: strong after strong, emphasis
/// after emphasis.
pub open spec fn mergeable(a: Inline, b: Inline) -> bool {
    (a is Strong && b is Strong) || (a is Emph && b is Emph)
}

/// `c` is the run `a` continued by the run `b`, in their shared font.
pub open spec fn merged(a: Inline, b: Inline, space: bool, c: Inline) -> bool {
    match (a, b, c) {
        (Inline::Strong(x), Inline::Strong(y), Inline::Strong(z)) => joined(x@, y@, space, z@),
        (Inline::Emph(x), Inline::Emph(y), Inline::Emph(z)) => joined(x@, y@, space, z@),
        _ => false,
    }
}

/// `new` is `old` with one line's inlines added, as `append` adds them.
pub open spec fn appended(old: Seq<Inline>, ins: Seq<Inline>, space: bool, new: Seq<Inline>) -> bool {
    if ins.len() == 0 {
        new == old
    } else if old.len() > 0 && mergeable(old.last(), ins[0]) {
        let n = old.len() - 1;
        &&& new.len() == old.len() + ins.len() - 1
        &&& new.subrange(0, n) == old.subrange(0, n)
        &&& merged(old.last(), ins[0], space, new[n])
        &&& new.subrange(old.len() as int, new.len() as int) == ins.subrange(1, ins.len() as int)
    } else {
        joined(old, ins, space, new)
    }
}

fn join_runs(x: Vec<Inline>, y: Vec<Inline>, space: bool) -> (z: Vec<Inline>)
    ensures
        joined(x@, y@, space, z@),
{
    let mut z = x;
    let ghost xs = z@;
    if space {
        z.push(Inline::text(" "));
    }
    let mut y = y;
    let ghost ys = y@;
    z.append(&mut y);
    proof {
        let sp: int = if space { 1 } else { 0 };
        assert(z@.subrange(0, xs.len() as int) =~= xs);
        assert(z@.subrange(xs.len() + sp, z@.len() as int) =~= ys);
    }
    z
}

/// Append one line's inlines to a run, optionally separated by the space
/// roff's filling would insert.
///
/// A font left open across a line break produces two runs of the same kind on
/// either side of that space; merging them keeps `\fBtwo\nwords\fR` a single
/// bold phrase instead of two adjacent ones.
pub(crate) fn append(target: &mut Vec<Inline>, inlines: Vec<Inline>, space: bool)
    ensures
        appended(old(target)@, inlines@, space, final(target)@),
{
    if inlines.len() == 0 {
        return;
    }
    let ghost old_t = target@;
    let ghost ins = inlines@;
    let mut rest = inlines;
    let first = rest.remove(0);
    if target.len() > 0 {
        let last = target.pop().unwrap();
        let ghost n = old_t.len() - 1;
        match (last, first) {
            (Inline::Strong(x), Inline::Strong(y)) => {
                let z = join_runs(x, y, space);
                target.push(Inline::Strong(z));
                target.append(&mut rest);
                assert(target@.subrange(0, n) =~= old_t.subrange(0, n));
                assert(target@.subrange(old_t.len() as int, target@.len() as int) =~= ins.subrange(
                    1,
                    ins.len() as int,
                ));
                return;
            },
            (Inline::Emph(x), Inline::Emph(y)) => {
                let z = join_runs(x, y, space);
                target.push(Inline::Emph(z));
                target.append(&mut rest);
                assert(target@.subrange(0, n) =~= old_t.subrange(0, n));
                assert(target@.subrange(old_t.len() as int, target@.len() as int) =~= ins.subrange(
                    1,
                    ins.len() as int,
                ));
                return;
            },
            (last, first) => {
                target.push(last);
                assert(target@ =~= old_t);
                rest.insert(0, first);
                assert(rest@ =~= ins);
                let mut t: Vec<Inline> = Vec::new();
                std::mem::swap(&mut t, target);
                *target = join_runs(t, rest, space);
                return;
            },
        }
    }
    rest.insert(0, first);
    assert(rest@ =~= ins);
    let mut t: Vec<Inline> = Vec::new();
    std::mem::swap(&mut t, target);
    *target = join_runs(t, rest, space);
}

// -- block nesting ----------------------------------------------------------------

/// What a frame is filling.
pub enum FrameKind {
    /// The section itself.
    Root,
    /// An `.RS` indent.
    Indent,
    /// A run of `.TP` items; `term` is the tag of the item being filled.
    Terms { items: Vec<Term>, term: Vec<Inline> },
    /// A run of `.IP` bullets or numbers.
    List { items: Vec<Vec<Block>>, ordered: bool },
}

/// A container being filled: its finished blocks, and the paragraph being
/// collected.
pub struct Frame {
    pub kind: FrameKind,
    pub blocks: Vec<Block>,
    pub para: Vec<Inline>,
}

/// Whether a block, once folded from a frame, holds nothing.
pub open spec fn empty_block(block: Block) -> bool {
    match block {
        Block::Group(blocks) => blocks@.len() == 0,
        Block::List { items, .. } => forall|i: int| 0 <= i < items@.len() ==> #[trigger] items@[i]@.len() == 0,
        Block::Terms(items) => forall|i: int|
            #![trigger items@[i]]
            0 <= i < items@.len() ==> items@[i].term@.len() == 0 && items@[i].body@.len() == 0,
        _ => false,
    }
}

fn all_items_empty(items: &Vec<Vec<Block>>) -> (r: bool)
    ensures
        r == forall|k: int| 0 <= k < items@.len() ==> #[trigger] items@[k]@.len() == 0,
{
    let mut i: usize = 0;
    while i < items.len()
        invariant
            i <= items.len(),
            forall|k: int| 0 <= k < i ==> #[trigger] items@[k]@.len() == 0,
        decreases items.len() - i,
    {
        if items[i].len() != 0 {
            return false;
        }
        i = i + 1;
    }
    true
}

fn all_terms_empty(items: &Vec<Term>) -> (r: bool)
    ensures
        r == forall|k: int|
            #![trigger items@[k]]
            0 <= k < items@.len() ==> items@[k].term@.len() == 0 && items@[k].body@.len() == 0,
{
    let mut i: usize = 0;
    while i < items.len()
        invariant
            i <= items.len(),
            forall|k: int|
                #![trigger items@[k]]
                0 <= k < i ==> items@[k].term@.len() == 0 && items@[k].body@.len() == 0,
        decreases items.len() - i,
    {
        if items[i].term.len() != 0 || items[i].body.len() != 0 {
            return false;
        }
        i = i + 1;
    }
    true
}

pub(crate) fn is_empty_block(block: &Block) -> (r: bool)
    ensures
        r == empty_block(*block),
{
    match block {
        Block::Group(blocks) => blocks.len() == 0,
        Block::List { items, .. } => all_items_empty(items),
        Block::Terms(items) => all_terms_empty(items),
        _ => false,
    }
}

impl FrameKind {
    fn is_list(&self) -> (r: bool)
        ensures
            r == (*self is List),
    {
        match self {
            FrameKind::List { .. } => true,
            _ => false,
        }
    }

    fn is_terms(&self) -> (r: bool)
        ensures
            r == (*self is Terms),
    {
        match self {
            FrameKind::Terms { .. } => true,
            _ => false,
        }
    }

    fn is_indent(&self) -> (r: bool)
        ensures
            r == (*self is Indent),
    {
        match self {
            FrameKind::Indent => true,
            _ => false,
        }
    }
}

impl Frame {
    fn new(kind: FrameKind) -> (r: Frame)
        ensures
            r.kind == kind,
            r.blocks@.len() == 0,
            r.para@.len() == 0,
    {
        Frame { kind, blocks: Vec::new(), para: Vec::new() }
    }
}

/// Whether `blocks` are the blocks of `frame` once its paragraph is
/// ended: the paragraph, trimmed, follows them unless nothing is left of it.
pub open spec fn flushed(frame: Frame, blocks: Seq<Block>) -> bool {
    let a = lead(frame.para@, 0);
    let b = trail(frame.para@, a, frame.para@.len() as int);
    if a < b {
        blocks.len() == frame.blocks@.len() + 1 && blocks.subrange(0, frame.blocks@.len() as int)
            == frame.blocks@ && (blocks.last() matches Block::Paragraph(p) && trimmed(p@, frame.para@))
    } else {
        blocks == frame.blocks@
    }
}

/// Whether `b` is the block a frame of kind `kind` becomes once closed,
/// `body` being its finished blocks: an indent or the root a group, a term
/// list its items with the open one added, a list likewise.
pub open spec fn frame_block(kind: FrameKind, body: Seq<Block>, b: Block) -> bool {
    match kind {
        FrameKind::Root => b matches Block::Group(v) && v@ == body,
        FrameKind::Indent => b matches Block::Group(v) && v@ == body,
        FrameKind::Terms { items, term } => b matches Block::Terms(v) && v@.len() == items@.len() + 1
            && v@.drop_last() == items@ && v@.last().term == term && v@.last().body@ == body,
        FrameKind::List { items, ordered } => b matches Block::List { ordered: o, items: v } && o == ordered
            && v@.len() == items@.len() + 1 && v@.drop_last() == items@ && v@.last()@ == body,
    }
}

/// Whether `p` is the frame `parent` once `child`, nested in it, was
/// closed: the child's paragraph ended, the child folded into one block,
/// and that block added to the parent's unless it holds nothing.
pub open spec fn closed_into(child: Frame, parent: Frame, p: Frame) -> bool {
    exists|body: Seq<Block>, b: Block|
        #[trigger] frame_block(child.kind, body, b) && flushed(child, body) && p.kind == parent.kind
            && p.para == parent.para && p.blocks@ == parent.blocks@ + (if empty_block(b) {
            Seq::<Block>::empty()
        } else {
            seq![b]
        })
}

/// Whether `r` are the blocks the nesting of `top` over the frames `below`
/// finishes as: each frame closed into the one beneath it, from the top
/// down, and the root's paragraph ended.
pub open spec fn finishes(below: Seq<Frame>, top: Frame, r: Seq<Block>) -> bool
    decreases below.len(),
{
    if below.len() == 0 {
        flushed(top, r)
    } else {
        exists|p: Frame| #[trigger] closed_into(top, below.last(), p) && finishes(below.drop_last(), p, r)
    }
}

/// Whether `r` is `m` with its top frame closed into the one beneath it.
pub open spec fn closing_step(m: Sink, r: Sink) -> bool {
    &&& m.below@.len() > 0
    &&& closed_into(m.top, m.below@.last(), r.top)
    &&& r.below@ == m.below@.drop_last()
}

/// Whether `steps` are the states the nesting of `top` over `below` goes
/// through when its paragraph is ended and then its frames are closed one
/// by one from the top down.
pub open spec fn closing_run(below: Seq<Frame>, top: Frame, steps: Seq<Sink>) -> bool {
    &&& steps.len() > 0
    &&& steps[0].below@ == below
    &&& steps[0].top.kind == top.kind
    &&& steps[0].top.para@.len() == 0
    &&& flushed(top, steps[0].top.blocks@)
    &&& forall|i: int| 0 <= i < steps.len() - 1 ==> closing_step(#[trigger] steps[i], steps[i + 1])
}

/// Whether `r` is the nesting of `top` over `below` once its paragraph was
/// ended and then `n` frames were closed, each into the one beneath it,
/// from the top down.
pub open spec fn closed_times(below: Seq<Frame>, top: Frame, n: nat, r: Sink) -> bool {
    exists|steps: Seq<Sink>| #[trigger] closing_run(below, top, steps) && steps.len() == n + 1 && steps.last() == r
}

/// Whether a frame of this kind is closed by a break that ends lists
/// (`lists`) or term lists (`terms`).
pub open spec fn closes(kind: FrameKind, lists: bool, terms: bool) -> bool {
    (lists && kind is List) || (terms && kind is Terms)
}

/// The level the nesting of `s` comes down to when the open frames that
/// `closes` picks are closed from level `n` down, the root never closing.
pub open spec fn stop_level(s: Sink, n: int, lists: bool, terms: bool) -> int
    decreases n,
{
    if n <= 0 || !closes(kind_at(s, n), lists, terms) {
        n
    } else {
        stop_level(s, n - 1, lists, terms)
    }
}

/// Whether `r` is `a` once its paragraph was ended and the open frames
/// that `closes` picks were closed, from the top down, until one it does
/// not pick or the root is on top.
pub open spec fn closed_while(a: Sink, lists: bool, terms: bool, r: Sink) -> bool {
    &&& closed_times(a.below@, a.top, (a.below@.len() - r.below@.len()) as nat, r)
    &&& r.below@.len() == stop_level(a, a.below@.len() as int, lists, terms)
}

/// Whether `b` is `a` once a `.TP` item tagged `term` was opened: the
/// item being filled is finished and kept, or, where no term list is open,
/// the open lists are closed and a new term list begins.
pub open spec fn term_started(a: Sink, term: Seq<Inline>, b: Sink) -> bool {
    &&& b.top.para@.len() == 0
    &&& b.top.blocks@.len() == 0
    &&& match a.top.kind {
        FrameKind::Terms { items, term: open } => b.below == a.below && (b.top.kind matches FrameKind::Terms {
            items: v,
            term: t,
        } && t@ == term && v@.len() == items@.len() + 1 && v@.drop_last() == items@ && v@.last().term == open
            && flushed(a.top, v@.last().body@)),
        _ => exists|m: Sink|
            #[trigger] closed_while(a, true, false, m) && b.below@ == m.below@.push(m.top) && (b.top.kind matches FrameKind::Terms {
                items: v,
                term: t,
            } && v@.len() == 0 && t@ == term),
    }
}

/// Whether `b` is `a` once an `.IP` bullet item was opened: the item being
/// filled is finished and kept, or, where no list is open, the open term
/// lists are closed and a new list begins.
pub open spec fn item_started(a: Sink, ordered: bool, b: Sink) -> bool {
    &&& b.top.para@.len() == 0
    &&& b.top.blocks@.len() == 0
    &&& match a.top.kind {
        FrameKind::List { items, ordered: o } => b.below == a.below && (b.top.kind matches FrameKind::List {
            items: v,
            ordered: o2,
        } && o2 == o && v@.len() == items@.len() + 1 && v@.drop_last() == items@ && flushed(a.top, v@.last()@)),
        _ => exists|m: Sink|
            #[trigger] closed_while(a, false, true, m) && b.below@ == m.below@.push(m.top) && (b.top.kind matches FrameKind::List {
                items: v,
                ordered: o2,
            } && v@.len() == 0 && o2 == ordered),
    }
}

/// The kind of the frame `j` steps up from the bottom of `s`'s nesting,
/// the frame being filled at the top.
pub open spec fn kind_at(s: Sink, j: int) -> FrameKind {
    if 0 <= j < s.below@.len() {
        s.below@[j].kind
    } else {
        s.top.kind
    }
}

/// The highest of the first `n` levels of `s`'s nesting above the bottom
/// that is an `.RS` indent.
pub open spec fn last_indent(s: Sink, n: int) -> Option<int>
    decreases n,
{
    if n <= 0 {
        None
    } else if kind_at(s, n) is Indent {
        Some(n)
    } else {
        last_indent(s, n - 1)
    }
}

proof fn lemma_last_indent_same(a: Sink, b: Sink, n: int)
    requires
        a.below == b.below,
        a.top.kind == b.top.kind,
    ensures
        last_indent(a, n) == last_indent(b, n),
    decreases n,
{
    if n > 0 {
        lemma_last_indent_same(a, b, n - 1);
    }
}

/// The finished blocks of the section's root frame.
pub open spec fn root_blocks(s: Sink) -> Seq<Block> {
    if s.below@.len() == 0 {
        s.top.blocks@
    } else {
        s.below@[0].blocks@
    }
}

/// Turns a stream of roff events into blocks: the frame being filled on top
/// of the frames it is nested in, the section's root at the bottom.
pub struct Sink {
    pub below: Vec<Frame>,
    pub top: Frame,
}

impl Sink {
    /// The section's root is at the bottom of the nesting, and nowhere else;
    /// only the frame on top has a paragraph open.
    pub open spec fn wf(self) -> bool {
        &&& (self.below@.len() == 0) == (self.top.kind is Root)
        &&& self.below@.len() > 0 ==> self.below@[0].kind is Root
        &&& forall|i: int| 0 < i < self.below@.len() ==> !(#[trigger] self.below@[i].kind is Root)
        &&& forall|i: int| 0 <= i < self.below@.len() ==> (#[trigger] self.below@[i]).para@.len() == 0
    }

    pub(crate) fn new() -> (r: Sink)
        ensures
            r.wf(),
            r.below@.len() == 0,
            r.top.kind is Root,
            r.top.blocks@.len() == 0,
            r.top.para@.len() == 0,
    {
        Sink { below: Vec::new(), top: Frame::new(FrameKind::Root) }
    }

    /// End the paragraph being collected, keeping it if it holds anything
    /// but whitespace.
    pub(crate) fn flush_para(&mut self)
        requires
            old(self).wf(),
        ensures
            final(self).wf(),
            final(self).below == old(self).below,
            final(self).top.kind == old(self).top.kind,
            final(self).top.para@.len() == 0,
            final(self).top.blocks@.len() >= old(self).top.blocks@.len(),
            final(self).top.blocks@.subrange(0, old(self).top.blocks@.len() as int)
                == old(self).top.blocks@,
            flushed(old(self).top, final(self).top.blocks@),
    {
        let mut para: Vec<Inline> = Vec::new();
        std::mem::swap(&mut para, &mut self.top.para);
        let para = trim_inlines(para);
        if para.len() > 0 {
            self.top.blocks.push(Block::Paragraph(para));
        }
        assert(self.top.blocks@.subrange(0, old(self).top.blocks@.len() as int)
            =~= old(self).top.blocks@);
    }

    pub(crate) fn push_block(&mut self, block: Block)
        requires
            old(self).wf(),
        ensures
            final(self).wf(),
            final(self).below == old(self).below,
            final(self).top.kind == old(self).top.kind,
            final(self).top.para@.len() == 0,
            final(self).top.blocks@.len() > 0,
            final(self).top.blocks@.last() == block,
            flushed(old(self).top, final(self).top.blocks@.drop_last()),
    {
        self.flush_para();
        let ghost mid = self.top.blocks@;
        self.top.blocks.push(block);
        assert(self.top.blocks@.drop_last() =~= mid);
    }

    /// Pop the top frame and fold it into its parent as a block.
    pub(crate) fn close_frame(&mut self)
        requires
            old(self).wf(),
        ensures
            final(self).wf(),
            old(self).below@.len() > 0 ==> final(self).below@ == old(self).below@.drop_last(),
            old(self).below@.len() == 0 ==> final(self).below == old(self).below,
            old(self).below@.len() > 0 ==> {
                let parent = old(self).below@.last();
                &&& final(self).top.kind == parent.kind
                &&& final(self).top.para == parent.para
                &&& final(self).top.blocks@.len() >= parent.blocks@.len()
                &&& final(self).top.blocks@.subrange(0, parent.blocks@.len() as int) == parent.blocks@
            },
            old(self).below@.len() == 0 ==> final(self).top.kind == old(self).top.kind && flushed(
                old(self).top,
                final(self).top.blocks@,
            ),
            old(self).below@.len() > 0 ==> closed_into(old(self).top, old(self).below@.last(), final(self).top),
    {
        self.flush_para();
        if self.below.len() == 0 {
            return;
        }
        let mut frame = self.below.pop().unwrap();
        std::mem::swap(&mut frame, &mut self.top);
        let ghost body = frame.blocks@;
        let ghost kind = frame.kind;
        let block = match frame.kind {
            FrameKind::Root | FrameKind::Indent => Block::Group(frame.blocks),
            FrameKind::Terms { mut items, term } => {
                let ghost earlier = items@;
                items.push(Term { term, body: frame.blocks });
                assert(items@.drop_last() =~= earlier);
                Block::Terms(items)
            },
            FrameKind::List { mut items, ordered } => {
                let ghost earlier = items@;
                items.push(frame.blocks);
                assert(items@.drop_last() =~= earlier);
                Block::List { ordered, items }
            },
        };
        let ghost b = block;
        assert(frame_block(kind, body, b));
        let ghost before = self.top.blocks@;
        if !is_empty_block(&block) {
            self.top.blocks.push(block);
            assert(self.top.blocks@.subrange(0, before.len() as int) =~= before);
        } else {
            assert(self.top.blocks@.subrange(0, self.top.blocks@.len() as int) =~= self.top.blocks@);
        }
        assert(self.top.blocks@ =~= before + (if empty_block(b) {
            Seq::<Block>::empty()
        } else {
            seq![b]
        }));
    }

    /// Close the open frames that `closes` picks, from the top down, until
    /// one it does not pick or the root is on top.
    fn close_while(&mut self, lists: bool, terms: bool)
        requires
            old(self).wf(),
        ensures
            final(self).wf(),
            closed_while(*old(self), lists, terms, *final(self)),
            final(self).below@.len() <= old(self).below@.len(),
            final(self).top.para@.len() == 0,
            final(self).below@.len() == 0 || !closes(final(self).top.kind, lists, terms),
    {
        let ghost s0 = *self;
        let ghost n0 = s0.below@.len() as int;
        self.flush_para();
        let ghost mut steps = seq![*self];
        while self.below.len() > 0 && ((lists && self.top.kind.is_list()) || (terms && self.top.kind.is_terms()))
            invariant
                self.wf(),
                self.top.para@.len() == 0,
                self.below@.len() <= n0,
                s0.below@.len() == n0,
                self.below@ == s0.below@.subrange(0, self.below@.len() as int),
                self.top.kind == kind_at(s0, self.below@.len() as int),
                stop_level(s0, n0, lists, terms) == stop_level(s0, self.below@.len() as int, lists, terms),
                closing_run(s0.below@, s0.top, steps),
                steps.len() == n0 - self.below@.len() + 1,
                steps.last() == *self,
            decreases self.below@.len(),
        {
            let ghost was = *self;
            let ghost len = self.below@.len() as int;
            self.close_frame();
            proof {
                assert(s0.below@.subrange(0, len)[len - 1] == s0.below@[len - 1]);
                assert(self.below@ =~= s0.below@.subrange(0, self.below@.len() as int));
                assert(closing_step(was, *self));
                let before = steps;
                steps = steps.push(*self);
                assert forall|i: int| 0 <= i < steps.len() - 1 implies closing_step(#[trigger] steps[i], steps[i + 1]) by {
                    if i < before.len() - 1 {
                        assert(steps[i] == before[i] && steps[i + 1] == before[i + 1]);
                    }
                }
            }
        }
        assert(closed_times(s0.below@, s0.top, (n0 - self.below@.len()) as nat, *self));
    }

    /// `.PP`: ends the paragraph and any open list, but not an `.RS` indent.
    pub(crate) fn para_break(&mut self)
        requires
            old(self).wf(),
        ensures
            final(self).wf(),
            closed_while(*old(self), true, true, *final(self)),
            final(self).below@.len() <= old(self).below@.len(),
            final(self).top.para@.len() == 0,
            final(self).below@.len() == 0 || !(final(self).top.kind is Terms),
            final(self).below@.len() == 0 || !(final(self).top.kind is List),
    {
        self.close_while(true, true);
    }

    /// Open a `.TP` item whose tag is `term`: the next item of the list
    /// being filled, or the first of a new one.
    pub(crate) fn start_term(&mut self, term: Vec<Inline>)
        requires
            old(self).wf(),
        ensures
            final(self).wf(),
            term_started(*old(self), term@, *final(self)),
            final(self).top.kind matches FrameKind::Terms { term: t, .. } && t == term,
            final(self).top.para@.len() == 0,
    {
        if self.top.kind.is_terms() {
            self.flush_para();
            let mut kind = FrameKind::Root;
            std::mem::swap(&mut kind, &mut self.top.kind);
            match kind {
                FrameKind::Terms { mut items, term: open } => {
                    let ghost earlier = items@;
                    let mut body: Vec<Block> = Vec::new();
                    std::mem::swap(&mut body, &mut self.top.blocks);
                    items.push(Term { term: open, body });
                    assert(items@.drop_last() =~= earlier);
                    self.top.kind = FrameKind::Terms { items, term };
                },
                other => {
                    self.top.kind = other;
                },
            }
            return;
        }
        let ghost a = *self;
        self.close_while(true, false);
        let ghost m = *self;
        let mut frame = Frame::new(FrameKind::Terms { items: Vec::new(), term });
        std::mem::swap(&mut frame, &mut self.top);
        self.below.push(frame);
        assert(self.below@ =~= m.below@.push(m.top));
        assert(closed_while(a, true, false, m));
    }

    /// Open an `.IP` bullet: the next item of the list being filled, or the
    /// first of a new one.
    pub(crate) fn start_item(&mut self, ordered: bool)
        requires
            old(self).wf(),
        ensures
            final(self).wf(),
            item_started(*old(self), ordered, *final(self)),
            final(self).top.kind is List,
            final(self).top.para@.len() == 0,
    {
        if self.top.kind.is_list() {
            self.flush_para();
            let mut kind = FrameKind::Root;
            std::mem::swap(&mut kind, &mut self.top.kind);
            match kind {
                FrameKind::List { mut items, ordered: was } => {
                    let ghost earlier = items@;
                    let mut body: Vec<Block> = Vec::new();
                    std::mem::swap(&mut body, &mut self.top.blocks);
                    items.push(body);
                    assert(items@.drop_last() =~= earlier);
                    self.top.kind = FrameKind::List { items, ordered: was };
                },
                other => {
                    self.top.kind = other;
                },
            }
            return;
        }
        let ghost a = *self;
        self.close_while(false, true);
        let ghost m = *self;
        let mut frame = Frame::new(FrameKind::List { items: Vec::new(), ordered });
        std::mem::swap(&mut frame, &mut self.top);
        self.below.push(frame);
        assert(self.below@ =~= m.below@.push(m.top));
        assert(closed_while(a, false, true, m));
    }

    /// `.RS`: open an indent.
    pub(crate) fn start_indent(&mut self)
        requires
            old(self).wf(),
        ensures
            final(self).wf(),
            final(self).top.kind is Indent,
            final(self).top.blocks@.len() == 0,
            final(self).top.para@.len() == 0,
            final(self).below@.len() == old(self).below@.len() + 1,
            final(self).below@.drop_last() == old(self).below@,
            final(self).below@.last().kind == old(self).top.kind,
            final(self).below@.last().para@.len() == 0,
            flushed(old(self).top, final(self).below@.last().blocks@),
    {
        self.flush_para();
        let ghost mid = self.below@;
        let mut frame = Frame::new(FrameKind::Indent);
        std::mem::swap(&mut frame, &mut self.top);
        self.below.push(frame);
        assert(self.below@.drop_last() =~= mid);
    }

    /// `.RE` closes everything opened since the matching `.RS`, including any
    /// list still open inside it.
    pub(crate) fn end_indent(&mut self)
        requires
            old(self).wf(),
        ensures
            final(self).wf(),
            final(self).below@.len() <= old(self).below@.len(),
            final(self).below@ == old(self).below@.subrange(0, final(self).below@.len() as int),
            final(self).below@.len() == match last_indent(*old(self), old(self).below@.len() as int) {
                Some(i) => i - 1,
                None => 0,
            },
            closed_times(
                old(self).below@,
                old(self).top,
                (old(self).below@.len() - final(self).below@.len()) as nat,
                *final(self),
            ),
    {
        self.flush_para();
        let ghost s0 = *self;
        let ghost n0 = s0.below@.len() as int;
        proof {
            lemma_last_indent_same(*old(self), s0, n0);
        }
        let ghost mut steps = seq![*self];
        let mut done = false;
        while self.below.len() > 0 && !done
            invariant
                self.wf(),
                self.below@.len() <= n0,
                s0.below@.len() == n0,
                self.below@ == s0.below@.subrange(0, self.below@.len() as int),
                !done ==> self.top.kind == kind_at(s0, self.below@.len() as int) && last_indent(s0, n0)
                    == last_indent(s0, self.below@.len() as int),
                done ==> last_indent(s0, n0) == Some(self.below@.len() + 1int),
                closing_run(old(self).below@, old(self).top, steps),
                steps.len() == n0 - self.below@.len() + 1,
                steps.last() == *self,
            decreases self.below@.len(),
        {
            let ghost len = self.below@.len() as int;
            let indent = self.top.kind.is_indent();
            let ghost was = *self;
            self.close_frame();
            proof {
                assert(closing_step(was, *self));
                let before = steps;
                steps = steps.push(*self);
                assert forall|i: int| 0 <= i < steps.len() - 1 implies closing_step(#[trigger] steps[i], steps[i + 1]) by {
                    if i < before.len() - 1 {
                        assert(steps[i] == before[i] && steps[i + 1] == before[i + 1]);
                    }
                }
            }
            assert(s0.below@.subrange(0, len)[len - 1] == s0.below@[len - 1]);
            assert(self.below@ =~= s0.below@.subrange(0, self.below@.len() as int));
            if indent {
                done = true;
            }
        }
    }

    /// Close every open frame and hand back the section's blocks.
    pub(crate) fn finish(self) -> (r: Vec<Block>)
        requires
            self.wf(),
        ensures
            r@.len() >= root_blocks(self).len(),
            r@.subrange(0, root_blocks(self).len() as int) == root_blocks(self),
            self.below@.len() == 0 ==> flushed(self.top, r@),
            finishes(self.below@, self.top, r@),
    {
        let ghost start = root_blocks(self);
        let mut sink = self;
        while sink.below.len() > 0
            invariant
                sink.wf(),
                root_blocks(sink).len() >= start.len(),
                root_blocks(sink).subrange(0, start.len() as int) == start,
                self.below@.len() == 0 ==> sink == self,
                forall|x: Seq<Block>| #[trigger] finishes(sink.below@, sink.top, x) ==> finishes(self.below@, self.top, x),
            decreases sink.below@.len(),
        {
            let ghost before = root_blocks(sink);
            let ghost was = sink;
            sink.close_frame();
            proof {
                assert forall|x: Seq<Block>| #[trigger] finishes(sink.below@, sink.top, x) implies finishes(
                    self.below@,
                    self.top,
                    x,
                ) by {
                    assert(closed_into(was.top, was.below@.last(), sink.top));
                    assert(finishes(was.below@, was.top, x));
                }
                if was.below@.len() > 1 {
                    assert(sink.below@[0] == was.below@[0]);
                }
                assert(root_blocks(sink).subrange(0, before.len() as int) == before);
                assert(root_blocks(sink).subrange(0, start.len() as int) =~= before.subrange(0, start.len() as int));
            }
        }
        let ghost before = sink.top.blocks@;
        let ghost last = sink;
        sink.flush_para();
        assert(sink.top.blocks@.subrange(0, start.len() as int) =~= before.subrange(0, start.len() as int));
        assert(finishes(last.below@, last.top, sink.top.blocks@));
        sink.top.blocks
    }
}

} // verus!
