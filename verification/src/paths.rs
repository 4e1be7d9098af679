//! Paths as text: `/`-separated, read the way `std::path::Path` reads them on
//! Unix, without touching the file system.

use vstd::prelude::*;

use crate::text::{char_views, join, join_exec, push_chars, slice_chars};

verus! {

/// The pieces of `s` between its `/`s, empty ones included: `a//b` is
/// `a`, ``, `b`, and `` is one empty piece.
pub open spec fn pieces(s: Seq<char>) -> Seq<Seq<char>>
    decreases s.len(),
{
    if s.len() == 0 {
        seq![Seq::<char>::empty()]
    } else {
        let rest = pieces(s.drop_first());
        if s[0] == '/' {
            seq![Seq::<char>::empty()] + rest
        } else {
            rest.update(0, seq![s[0]] + rest[0])
        }
    }
}

pub proof fn lemma_pieces_nonempty(s: Seq<char>)
    ensures
        pieces(s).len() >= 1,
    decreases s.len(),
{
    if s.len() > 0 {
        lemma_pieces_nonempty(s.drop_first());
    }
}

fn pieces_from(s: &Vec<char>, i: usize) -> (r: Vec<Vec<char>>)
    requires
        i <= s@.len(),
    ensures
        char_views(r@) == pieces(s@.subrange(i as int, s@.len() as int)),
    decreases s@.len() - i,
{
    let ghost tail = s@.subrange(i as int, s@.len() as int);
    if i == s.len() {
        let mut r: Vec<Vec<char>> = Vec::new();
        r.push(Vec::new());
        assert(tail =~= Seq::<char>::empty());
        assert(char_views(r@) =~= seq![Seq::<char>::empty()]);
        return r;
    }
    let mut rest = pieces_from(s, i + 1);
    assert(tail.drop_first() =~= s@.subrange(i + 1, s@.len() as int));
    proof {
        lemma_pieces_nonempty(tail.drop_first());
    }
    if s[i] == '/' {
        let ghost before = rest@;
        rest.insert(0, Vec::new());
        assert(char_views(rest@) =~= seq![Seq::<char>::empty()] + char_views(before));
    } else {
        let ghost before = rest@;
        let mut first: Vec<char> = Vec::new();
        first.push(s[i]);
        push_chars(&mut first, &rest[0]);
        assert(first@ =~= seq![s@[i as int]] + before[0]@);
        rest.set(0, first);
        assert(char_views(rest@) =~= char_views(before).update(0, seq![s@[i as int]] + before[0]@));
    }
    rest
}

/// `s` split at its `/`s.
pub(crate) fn split_path(s: &Vec<char>) -> (r: Vec<Vec<char>>)
    ensures
        char_views(r@) == pieces(s@),
{
    assert(s@.subrange(0, s@.len() as int) =~= s@);
    pieces_from(s, 0)
}

/// A piece that names something: not empty, not `.`.
pub open spec fn is_step(p: Seq<char>) -> bool {
    p.len() > 0 && p != seq!['.']
}

/// The steps among `ps`, in order.
pub open spec fn steps(ps: Seq<Seq<char>>) -> Seq<Seq<char>>
    decreases ps.len(),
{
    if ps.len() == 0 {
        ps
    } else if is_step(ps.last()) {
        steps(ps.drop_last()).push(ps.last())
    } else {
        steps(ps.drop_last())
    }
}

fn is_step_exec(p: &Vec<char>) -> (r: bool)
    ensures
        r == is_step(p@),
{
    if p.len() == 0 {
        return false;
    }
    if p.len() == 1 && p[0] == '.' {
        assert(p@ =~= seq!['.']);
        return false;
    }
    assert(p@.len() != 1 ==> p@ != seq!['.']);
    true
}

/// The steps of a path: its pieces that are neither empty nor `.`, `..`
/// among them.
pub(crate) fn path_steps(s: &Vec<char>) -> (r: Vec<Vec<char>>)
    ensures
        char_views(r@) == steps(pieces(s@)),
{
    let ps = split_path(s);
    let mut out: Vec<Vec<char>> = Vec::new();
    let mut i: usize = 0;
    while i < ps.len()
        invariant
            i <= ps@.len(),
            char_views(out@) == steps(char_views(ps@).subrange(0, i as int)),
        decreases ps@.len() - i,
    {
        let ghost pre = char_views(ps@).subrange(0, i as int + 1);
        assert(pre.drop_last() =~= char_views(ps@).subrange(0, i as int));
        if is_step_exec(&ps[i]) {
            let ghost before = out@;
            out.push(copy_chars(&ps[i]));
            assert(char_views(out@) =~= char_views(before).push(ps@[i as int]@));
        }
        i = i + 1;
    }
    assert(char_views(ps@).subrange(0, ps@.len() as int) =~= char_views(ps@));
    out
}

pub(crate) fn copy_chars(v: &Vec<char>) -> (r: Vec<char>)
    ensures
        r@ == v@,
{
    slice_chars(v, 0, v.len())
}

// -- names ------------------------------------------------------------------------

/// The last step of a path, unless it is `..` or there is none
/// (`Path::file_name`).
pub open spec fn file_name(s: Seq<char>) -> Option<Seq<char>> {
    let st = steps(pieces(s));
    if st.len() > 0 && st.last() != seq!['.', '.'] {
        Some(st.last())
    } else {
        None
    }
}

/// Where the last `.` of `name[..n]` stands.
pub open spec fn last_dot(name: Seq<char>, n: int) -> Option<int>
    decreases n,
{
    if n <= 0 || n > name.len() {
        None
    } else if name[n - 1] == '.' {
        Some(n - 1)
    } else {
        last_dot(name, n - 1)
    }
}

/// A file name without its extension: what comes before its last `.`,
/// unless that `.` begins the name (`Path::file_stem`).
pub open spec fn stem_of(name: Seq<char>) -> Seq<char> {
    match last_dot(name, name.len() as int) {
        Some(d) if d > 0 => name.subrange(0, d),
        _ => name,
    }
}

/// `Path::file_stem`.
pub open spec fn file_stem(s: Seq<char>) -> Option<Seq<char>> {
    match file_name(s) {
        Some(n) => Some(stem_of(n)),
        None => None,
    }
}

pub(crate) fn stem_exec(name: &Vec<char>) -> (r: Vec<char>)
    ensures
        r@ == stem_of(name@),
{
    let mut n = name.len();
    while n > 0 && name[n - 1] != '.'
        invariant
            n <= name@.len(),
            last_dot(name@, name@.len() as int) == last_dot(name@, n as int),
        decreases n,
    {
        n = n - 1;
    }
    if n > 1 {
        slice_chars(name, 0, n - 1)
    } else {
        copy_chars(name)
    }
}

pub(crate) fn file_name_exec(s: &Vec<char>) -> (r: Option<Vec<char>>)
    ensures
        match r {
            Some(n) => file_name(s@) == Some(n@),
            None => file_name(s@) is None,
        },
{
    let st = path_steps(s);
    if st.len() == 0 {
        return None;
    }
    let last = copy_chars(&st[st.len() - 1]);
    assert(char_views(st@).last() == last@);
    if last.len() == 2 && last[0] == '.' && last[1] == '.' {
        assert(last@ =~= seq!['.', '.']);
        None
    } else {
        assert(last@ != seq!['.', '.']);
        Some(last)
    }
}

pub(crate) fn file_stem_exec(s: &Vec<char>) -> (r: Option<Vec<char>>)
    ensures
        match r {
            Some(n) => file_stem(s@) == Some(n@),
            None => file_stem(s@) is None,
        },
{
    match file_name_exec(s) {
        Some(n) => Some(stem_exec(&n)),
        None => None,
    }
}

// -- joining ------------------------------------------------------------------------

/// Whether a path is absolute: it begins at `/`.
pub open spec fn absolute(s: Seq<char>) -> bool {
    s.len() > 0 && s[0] == '/'
}

/// One step of reading a path from the left: `.` and empty pieces stay
/// where they are, `..` goes up where there is a step to go up from (and
/// past the root stays at the root), anything else goes down.
pub open spec fn descend(st: Seq<Seq<char>>, p: Seq<char>, rooted: bool) -> Seq<Seq<char>> {
    if !is_step(p) {
        st
    } else if p == seq!['.', '.'] {
        if st.len() > 0 && st.last() != seq!['.', '.'] {
            st.drop_last()
        } else if rooted {
            st
        } else {
            st.push(p)
        }
    } else {
        st.push(p)
    }
}

/// The steps left of `ps` once each `..` has gone up.
pub open spec fn walk_steps(ps: Seq<Seq<char>>, rooted: bool) -> Seq<Seq<char>>
    decreases ps.len(),
{
    if ps.len() == 0 {
        ps
    } else {
        descend(walk_steps(ps.drop_last(), rooted), ps.last(), rooted)
    }
}

/// A path with `.`, empty pieces and `..` resolved lexically.
pub open spec fn normal(s: Seq<char>) -> Seq<char> {
    let st = walk_steps(pieces(s), absolute(s));
    if absolute(s) {
        seq!['/'] + join(st, seq!['/'])
    } else {
        join(st, seq!['/'])
    }
}

pub(crate) fn normalize(s: &Vec<char>) -> (r: Vec<char>)
    ensures
        r@ == normal(s@),
{
    let rooted = s.len() > 0 && s[0] == '/';
    let ps = split_path(s);
    let mut st: Vec<Vec<char>> = Vec::new();
    let mut i: usize = 0;
    while i < ps.len()
        invariant
            i <= ps@.len(),
            rooted == absolute(s@),
            char_views(ps@) == pieces(s@),
            char_views(st@) == walk_steps(char_views(ps@).subrange(0, i as int), rooted),
        decreases ps@.len() - i,
    {
        let ghost pre = char_views(ps@).subrange(0, i as int + 1);
        assert(pre.drop_last() =~= char_views(ps@).subrange(0, i as int));
        assert(pre.last() == ps@[i as int]@);
        let p = &ps[i];
        let ghost before = char_views(st@);
        if !is_step_exec(p) {
        } else if p.len() == 2 && p[0] == '.' && p[1] == '.' {
            assert(p@ =~= seq!['.', '.']);
            let n = st.len();
            let up = n > 0 && !(st[n - 1].len() == 2 && st[n - 1][0] == '.' && st[n - 1][1] == '.');
            if n > 0 {
                assert(before.last() == st@[n - 1]@);
                if st[n - 1].len() == 2 && st[n - 1][0] == '.' && st[n - 1][1] == '.' {
                    assert(st@[n - 1]@ =~= seq!['.', '.']);
                } else {
                    assert(st@[n - 1]@ != seq!['.', '.']);
                }
            }
            if up {
                st.pop();
                assert(char_views(st@) =~= before.drop_last());
            } else if !rooted {
                st.push(copy_chars(p));
                assert(char_views(st@) =~= before.push(p@));
            }
        } else {
            assert(p@ != seq!['.', '.']) by {
                if p@.len() == 2 {
                    assert(p@[0] != '.' || p@[1] != '.');
                }
            }
            st.push(copy_chars(p));
            assert(char_views(st@) =~= before.push(p@));
        }
        i = i + 1;
    }
    assert(char_views(ps@).subrange(0, ps@.len() as int) =~= char_views(ps@));
    let body = join_exec(&st, "/");
    proof {
        reveal_strlit("/");
        assert("/"@ =~= seq!['/']);
    }
    assert(body@ == join(walk_steps(pieces(s@), rooted), seq!['/']));
    if rooted {
        let mut out: Vec<char> = Vec::new();
        out.push('/');
        push_chars(&mut out, &body);
        assert(out@ =~= seq!['/'] + body@);
        out
    } else {
        body
    }
}

/// The directory a file path sits in (`Path::parent` of a file): what comes
/// before its last `/`, the root for a file at the root, and nothing for a
/// bare name.
pub open spec fn parent(s: Seq<char>) -> Seq<char> {
    match last_slash(s, s.len() as int) {
        Some(k) => if k == 0 {
            seq!['/']
        } else {
            s.subrange(0, k)
        },
        None => Seq::<char>::empty(),
    }
}

/// Where the last `/` of `s[..n]` stands.
pub open spec fn last_slash(s: Seq<char>, n: int) -> Option<int>
    decreases n,
{
    if n <= 0 || n > s.len() {
        None
    } else if s[n - 1] == '/' {
        Some(n - 1)
    } else {
        last_slash(s, n - 1)
    }
}

pub(crate) fn parent_exec(s: &Vec<char>) -> (r: Vec<char>)
    ensures
        r@ == parent(s@),
{
    let mut n = s.len();
    while n > 0 && s[n - 1] != '/'
        invariant
            n <= s@.len(),
            last_slash(s@, s@.len() as int) == last_slash(s@, n as int),
        decreases n,
    {
        n = n - 1;
    }
    if n == 0 {
        Vec::new()
    } else if n == 1 {
        let mut out: Vec<char> = Vec::new();
        out.push('/');
        assert(out@ =~= seq!['/']);
        out
    } else {
        slice_chars(s, 0, n - 1)
    }
}

/// `path` read from `directory` (`Path::join`, then resolved lexically): an
/// absolute path stands for itself.
pub open spec fn resolve(directory: Seq<char>, path: Seq<char>) -> Seq<char> {
    if absolute(path) || directory.len() == 0 {
        normal(path)
    } else {
        normal(directory + seq!['/'] + path)
    }
}

pub(crate) fn resolve_exec(directory: &Vec<char>, path: &Vec<char>) -> (r: Vec<char>)
    ensures
        r@ == resolve(directory@, path@),
{
    if (path.len() > 0 && path[0] == '/') || directory.len() == 0 {
        normalize(path)
    } else {
        let mut joined = copy_chars(directory);
        joined.push('/');
        push_chars(&mut joined, path);
        assert(joined@ =~= directory@ + seq!['/'] + path@);
        normalize(&joined)
    }
}

} // verus!
