//! Assembling a manual from the topics of a run: which reader a file
//! needs, which files a directory contributes, what each topic is called on
//! disk and as a heading label, and what the index lists.
//!
//! Everything here works on paths as text and on values already read; the
//! program around the library does the reading and the writing.

use vstd::prelude::*;

use crate::ir::Topic;
use crate::man::{self, ManError};
use crate::paths::{
    copy_chars, file_name, file_name_exec, last_dot, path_steps, pieces, steps, stem_exec,
    stem_of,
};
use crate::python::{self, PythonError};
use crate::r::{self, RdError};
use crate::text::{
    char_views, chars_of, join, join_exec, owned, push_chars, push_str, seq_eq, slice_chars,
    str_eq, string_of,
};
use crate::typ;
use crate::typ::syntax::Cst;
use crate::typst::escape::{string_literal, typst_string};

verus! {

// -- names on disk ------------------------------------------------------------------

/// A path separator becomes `-`.
pub open spec fn dash(c: char) -> char {
    if c == '/' || c == '\\' {
        '-'
    } else {
        c
    }
}

/// A name with every path separator replaced by `-`.
pub open spec fn sanitized(s: Seq<char>) -> Seq<char> {
    Seq::new(s.len(), |i: int| dash(s[i]))
}

fn sanitize_chars(s: &Vec<char>) -> (r: Vec<char>)
    ensures
        r@ == sanitized(s@),
{
    let mut out: Vec<char> = Vec::new();
    let mut i: usize = 0;
    while i < s.len()
        invariant
            i <= s@.len(),
            out@ == sanitized(s@.subrange(0, i as int)),
        decreases s@.len() - i,
    {
        let c = s[i];
        out.push(if c == '/' || c == '\\' { '-' } else { c });
        assert(out@ =~= sanitized(s@.subrange(0, i as int + 1)));
        i = i + 1;
    }
    assert(s@.subrange(0, s@.len() as int) =~= s@);
    out
}

/// Topic names are identifiers, but an Rd `\name` can hold anything; a path
/// separator must not escape the output directory.
pub fn sanitize(name: &str) -> (r: String)
    ensures
        r@ == sanitized(name@),
{
    string_of(sanitize_chars(&chars_of(name)).as_slice())
}

/// The decimal digit `d` stands for.
pub open spec fn digit(d: nat) -> char {
    if d == 0 { '0' }
    else if d == 1 { '1' }
    else if d == 2 { '2' }
    else if d == 3 { '3' }
    else if d == 4 { '4' }
    else if d == 5 { '5' }
    else if d == 6 { '6' }
    else if d == 7 { '7' }
    else if d == 8 { '8' }
    else { '9' }
}

/// A number written in decimal.
pub open spec fn decimal(n: nat) -> Seq<char>
    decreases n,
{
    if n < 10 {
        seq![digit(n)]
    } else {
        decimal(n / 10) + seq![digit(n % 10)]
    }
}

fn digit_exec(d: usize) -> (r: char)
    requires
        d < 10,
    ensures
        r == digit(d as nat),
{
    if d == 0 { '0' }
    else if d == 1 { '1' }
    else if d == 2 { '2' }
    else if d == 3 { '3' }
    else if d == 4 { '4' }
    else if d == 5 { '5' }
    else if d == 6 { '6' }
    else if d == 7 { '7' }
    else if d == 8 { '8' }
    else { '9' }
}

pub(crate) fn decimal_exec(n: usize) -> (r: Vec<char>)
    ensures
        r@ == decimal(n as nat),
    decreases n,
{
    if n < 10 {
        let mut v: Vec<char> = Vec::new();
        v.push(digit_exec(n));
        assert(v@ =~= seq![digit(n as nat)]);
        v
    } else {
        let mut v = decimal_exec(n / 10);
        v.push(digit_exec(n % 10));
        assert(v@ =~= decimal((n / 10) as nat) + seq![digit((n % 10) as nat)]);
        v
    }
}

// -- names shared by several topics ---------------------------------------------------

/// Whether `n` is the name at two places of `names`.
pub open spec fn shared(names: Seq<Seq<char>>, n: Seq<char>) -> bool {
    exists|i: int, j: int| 0 <= i < j < names.len() && #[trigger] names[i] == n && #[trigger] names[j] == n
}

/// Whether `n` occurs among `names[..j]`.
fn occurs_before(names: &Vec<String>, j: usize, n: &str) -> (r: bool)
    requires
        j <= names@.len(),
    ensures
        r == exists|i: int| 0 <= i < j && (#[trigger] names@[i])@ == n@,
{
    let mut i: usize = 0;
    while i < j
        invariant
            i <= j <= names@.len(),
            forall|k: int| 0 <= k < i ==> (#[trigger] names@[k])@ != n@,
        decreases j - i,
    {
        if str_eq(names[i].as_str(), n) {
            return true;
        }
        i = i + 1;
    }
    false
}

/// The views of some strings.
pub open spec fn views(v: Seq<String>) -> Seq<Seq<char>> {
    Seq::new(v.len(), |i: int| v[i]@)
}

/// Whether `n` is among `out`.
pub open spec fn listed(out: Seq<String>, n: Seq<char>) -> bool {
    exists|k: int| 0 <= k < out.len() && (#[trigger] out[k])@ == n
}

/// Names shared by two or more topics in the run, each once, in the order
/// in which each is first repeated.
pub fn duplicated_names(names: &Vec<String>) -> (r: Vec<String>)
    ensures
        forall|k: int| 0 <= k < r@.len() ==> shared(views(names@), (#[trigger] r@[k])@),
        forall|n: Seq<char>| #[trigger] shared(views(names@), n) ==> listed(r@, n),
        forall|a: int, b: int| 0 <= a < b < r@.len() ==> (#[trigger] r@[a])@ != (#[trigger] r@[b])@,
{
    let ghost vs = views(names@);
    let mut out: Vec<String> = Vec::new();
    let mut j: usize = 0;
    while j < names.len()
        invariant
            j <= names@.len(),
            vs == views(names@),
            forall|k: int| 0 <= k < out@.len() ==> shared(vs, (#[trigger] out@[k])@),
            forall|n: Seq<char>| #[trigger] shared(vs.subrange(0, j as int), n) ==> listed(out@, n),
            forall|a: int, b: int| 0 <= a < b < out@.len() ==> (#[trigger] out@[a])@ != (#[trigger] out@[b])@,
        decreases names@.len() - j,
    {
        let n = names[j].as_str();
        let ghost before = out@;
        if occurs_before(names, j, n) && !occurs_before(&out, out.len(), n) {
            out.push(owned(n));
            proof {
                let i = choose|i: int| 0 <= i < j && (#[trigger] names@[i])@ == n@;
                assert(vs[i] == n@ && vs[j as int] == n@);
                assert(shared(vs, n@));
                assert forall|a: int, b: int| 0 <= a < b < out@.len() implies (#[trigger] out@[a])@ != (#[trigger] out@[b])@ by {
                    assert(out@[a] == before[a]);
                    if b < before.len() {
                        assert(out@[b] == before[b]);
                    }
                }
            }
        }
        proof {
            assert forall|k: int| 0 <= k < out@.len() implies shared(vs, (#[trigger] out@[k])@) by {
                if k < before.len() {
                    assert(out@[k] == before[k]);
                }
            }
            assert forall|m: Seq<char>| #[trigger] shared(vs.subrange(0, j as int + 1), m) implies listed(out@, m) by {
                let (a, b) = choose|a: int, b: int| 0 <= a < b < j + 1 && #[trigger] vs.subrange(0, j as int + 1)[a] == m && #[trigger] vs.subrange(0, j as int + 1)[b] == m;
                if b < j {
                    assert(vs.subrange(0, j as int)[a] == m && vs.subrange(0, j as int)[b] == m);
                    assert(shared(vs.subrange(0, j as int), m));
                    let k = choose|k: int| 0 <= k < before.len() && (#[trigger] before[k])@ == m;
                    assert(out@[k] == before[k]);
                } else {
                    assert(names@[a]@ == n@);
                    if listed(before, m) {
                        let k = choose|k: int| 0 <= k < before.len() && (#[trigger] before[k])@ == m;
                        assert(out@[k] == before[k]);
                    } else {
                        assert(out@[out@.len() - 1]@ == m);
                    }
                }
            }
        }
        j = j + 1;
    }
    assert(vs.subrange(0, names@.len() as int) =~= vs);
    out
}

// -- recognising files --------------------------------------------------------------

/// The extension of a file name: what follows its last `.`, unless that
/// `.` begins the name (`Path::extension`).
pub open spec fn extension_of(name: Seq<char>) -> Option<Seq<char>> {
    match last_dot(name, name.len() as int) {
        Some(d) => if d > 0 {
            Some(name.subrange(d + 1, name.len() as int))
        } else {
            None
        },
        None => None,
    }
}

/// The extension of a path's file name.
pub open spec fn extension(path: Seq<char>) -> Option<Seq<char>> {
    match file_name(path) {
        Some(n) => extension_of(n),
        None => None,
    }
}

fn extension_exec(path: &Vec<char>) -> (r: Option<Vec<char>>)
    ensures
        match r {
            Some(e) => extension(path@) == Some(e@),
            None => extension(path@) is None,
        },
{
    match file_name_exec(path) {
        None => None,
        Some(name) => {
            let mut n = name.len();
            while n > 0 && name[n - 1] != '.'
                invariant
                    n <= name@.len(),
                    last_dot(name@, name@.len() as int) == last_dot(name@, n as int),
                decreases n,
            {
                n = n - 1;
            }
            if n > 1 {
                Some(slice_chars(&name, n, name.len()))
            } else {
                None
            }
        },
    }
}

/// Whether an extension names a manual section: a digit, then letters and
/// digits (`1`, `3`, `8`, `1p`, `3perl`, `3x`); or `man`.
pub open spec fn man_extension(e: Seq<char>) -> bool {
    e == "man"@ || (e.len() > 0 && '0' <= e[0] <= '9' && forall|k: int|
        1 <= k < e.len() ==> ascii_alphanumeric(#[trigger] e[k]))
}

pub open spec fn ascii_alphanumeric(c: char) -> bool {
    ('0' <= c <= '9') || ('a' <= c <= 'z') || ('A' <= c <= 'Z')
}

/// Whether an extension names a manual section: `1`, `3`, `8`, and the
/// suffixed forms `1p`, `3perl`, `3x`. Also `man`, which packages that ship
/// unnumbered sources use.
///
/// A man page has no distinguishing extension of its own, so this is the
/// one reader selected by a pattern rather than a fixed list.
pub fn is_man_extension(extension: &str) -> (r: bool)
    ensures
        r == man_extension(extension@),
{
    let e = chars_of(extension);
    proof {
        reveal_strlit("man");
    }
    if str_eq(extension, "man") {
        return true;
    }
    if e.len() == 0 || !('0' <= e[0] && e[0] <= '9') {
        return false;
    }
    let mut k: usize = 1;
    while k < e.len()
        invariant
            1 <= k <= e@.len(),
            e@ == extension@,
            extension@ != "man"@,
            '0' <= e@[0] <= '9',
            forall|j: int| 1 <= j < k ==> ascii_alphanumeric(#[trigger] e@[j]),
        decreases e@.len() - k,
    {
        let c = e[k];
        if !(('0' <= c && c <= '9') || ('a' <= c && c <= 'z') || ('A' <= c && c <= 'Z')) {
            return false;
        }
        k = k + 1;
    }
    true
}

/// The readers a file can be read with, by its extension.
#[derive(Debug, Clone, Copy, PartialEq, Eq)]
pub enum Format {
    /// `.Rd` or `.rd`.
    Rd,
    /// `.py`.
    Python,
    /// `.typ`.
    Typst,
    /// A manual section (`.1`, `.3perl`, `.man`).
    Man,
}

/// The reader a path's extension selects.
pub open spec fn format_of(path: Seq<char>) -> Option<Format> {
    match extension(path) {
        Some(e) => if e == "Rd"@ || e == "rd"@ {
            Some(Format::Rd)
        } else if e == "py"@ {
            Some(Format::Python)
        } else if e == "typ"@ {
            Some(Format::Typst)
        } else if man_extension(e) {
            Some(Format::Man)
        } else {
            None
        },
        None => None,
    }
}

/// The reader a path's extension selects, if any.
pub fn reader_for(path: &str) -> (r: Option<Format>)
    ensures
        r == format_of(path@),
{
    match extension_exec(&chars_of(path)) {
        None => None,
        Some(e) => {
            let s = string_of(e.as_slice());
            if str_eq(s.as_str(), "Rd") || str_eq(s.as_str(), "rd") {
                Some(Format::Rd)
            } else if str_eq(s.as_str(), "py") {
                Some(Format::Python)
            } else if str_eq(s.as_str(), "typ") {
                Some(Format::Typst)
            } else if is_man_extension(s.as_str()) {
                Some(Format::Man)
            } else {
                None
            }
        },
    }
}

/// Whether a file is one of the recognised kinds.
pub fn recognised(path: &str) -> (r: bool)
    ensures
        r == format_of(path@) is Some,
{
    reader_for(path).is_some()
}

/// Whether a path's own name marks it as not source, by the dot
/// convention: `.venv`, `.git`, `.tox`.
pub fn hidden(path: &str) -> (r: bool)
    ensures
        r == (file_name(path@) matches Some(n) && n.len() > 0 && n[0] == '.'),
{
    match file_name_exec(&chars_of(path)) {
        Some(n) => n.len() > 0 && n[0] == '.',
        None => false,
    }
}

// -- Python module names ------------------------------------------------------------

/// The farthest of the directories above a file, nearest first, that holds
/// an `__init__.py`.
pub open spec fn highest_package(ancestors: Seq<(String, bool)>, n: int) -> Option<int>
    decreases n,
{
    if n <= 0 || n > ancestors.len() {
        None
    } else if ancestors[n - 1].1 {
        Some(n - 1)
    } else {
        highest_package(ancestors, n - 1)
    }
}

/// The packages a module lies in, outermost first: the directories up to
/// the farthest one holding an `__init__.py`.
pub open spec fn packages_above(ancestors: Seq<(String, bool)>) -> Seq<Seq<char>> {
    match highest_package(ancestors, ancestors.len() as int) {
        Some(d) => Seq::new((d + 1) as nat, |k: int| ancestors[d - k].0@),
        None => Seq::<Seq<char>>::empty(),
    }
}

/// The dotted name of the module in file `stem`, given the directories
/// above it.
pub open spec fn dotted_module(stem: Seq<char>, ancestors: Seq<(String, bool)>) -> Seq<char> {
    let above = packages_above(ancestors);
    let parts = if stem != "__init__"@ {
        above.push(stem)
    } else {
        above
    };
    if parts.len() == 0 {
        stem
    } else {
        join(parts, seq!['.'])
    }
}

/// The dotted module name of a Python file, from the packages above it.
///
/// `stem` is the file's stem, and `ancestors` the directories above it,
/// nearest first, each with whether it holds an `__init__.py`.
///
/// Python's own rule: a directory is part of the import path exactly as
/// far up as `__init__.py` reaches, so `mypkg/core.py` is `mypkg.core` and
/// a loose `stats.py` is just `stats`. `__init__.py` documents the package
/// and is named for its directory. The highest `__init__.py` found decides
/// where the package starts, and every directory below it belongs to the
/// path whether it carries one or not: a namespace subpackage has none and
/// is still imported through its parent.
pub fn python_module(stem: &str, ancestors: &Vec<(String, bool)>) -> (r: String)
    ensures
        r@ == dotted_module(stem@, ancestors@),
{
    let mut n = ancestors.len();
    while n > 0 && !ancestors[n - 1].1
        invariant
            n <= ancestors@.len(),
            highest_package(ancestors@, ancestors@.len() as int) == highest_package(ancestors@, n as int),
        decreases n,
    {
        n = n - 1;
    }
    let mut parts: Vec<Vec<char>> = Vec::new();
    if n > 0 {
        let mut k: usize = n;
        while k > 0
            invariant
                k <= n <= ancestors@.len(),
                char_views(parts@) =~= Seq::new((n - k) as nat, |m: int| ancestors@[n - 1 - m].0@),
            decreases k,
        {
            let ghost before = char_views(parts@);
            let part = chars_of(ancestors[k - 1].0.as_str());
            parts.push(part);
            assert(char_views(parts@) =~= before.push(part@));
            assert(part@ == ancestors@[k - 1].0@);
            assert(char_views(parts@) =~= Seq::new((n - k + 1) as nat, |m: int| ancestors@[n - 1 - m].0@));
            k = k - 1;
        }
    }
    assert(char_views(parts@) =~= packages_above(ancestors@));
    proof {
        reveal_strlit("__init__");
        reveal_strlit(".");
        assert("."@ =~= seq!['.']);
    }
    if !str_eq(stem, "__init__") {
        let ghost before = char_views(parts@);
        parts.push(chars_of(stem));
        assert(char_views(parts@) =~= before.push(stem@));
    }
    if parts.len() == 0 {
        owned(stem)
    } else {
        string_of(join_exec(&parts, ".").as_slice())
    }
}

// -- slugs ----------------------------------------------------------------------------

/// The steps of a path that name a directory or a file, the file without
/// its extension (`with_extension("")`, then the `Normal` components).
pub open spec fn stem_parts(path: Seq<char>) -> Seq<Seq<char>> {
    let st = steps(pieces(path));
    let st2 = if st.len() > 0 && st.last() != seq!['.', '.'] {
        st.update(st.len() - 1, stem_of(st.last()))
    } else {
        st
    };
    named_steps(st2)
}

/// The steps that are not `..`.
pub open spec fn named_steps(st: Seq<Seq<char>>) -> Seq<Seq<char>>
    decreases st.len(),
{
    if st.len() == 0 {
        st
    } else if st.last() != seq!['.', '.'] {
        named_steps(st.drop_last()).push(st.last())
    } else {
        named_steps(st.drop_last())
    }
}

fn is_up(p: &Vec<char>) -> (r: bool)
    ensures
        r == (p@ == seq!['.', '.']),
{
    if p.len() == 2 && p[0] == '.' && p[1] == '.' {
        assert(p@ =~= seq!['.', '.']);
        true
    } else {
        assert(p@.len() == 2 ==> p@[0] != '.' || p@[1] != '.');
        false
    }
}

fn stem_parts_exec(path: &Vec<char>) -> (r: Vec<Vec<char>>)
    ensures
        char_views(r@) == stem_parts(path@),
{
    let mut st = path_steps(path);
    let n = st.len();
    if n > 0 && !is_up(&st[n - 1]) {
        assert(char_views(st@).last() == st@[n - 1]@);
        let ghost before = char_views(st@);
        let stem = stem_exec(&st[n - 1]);
        st.set(n - 1, stem);
        assert(char_views(st@) =~= before.update(before.len() - 1, stem_of(before.last())));
    }
    let ghost st2 = char_views(st@);
    let mut out: Vec<Vec<char>> = Vec::new();
    let mut i: usize = 0;
    while i < st.len()
        invariant
            i <= st@.len(),
            st2 == char_views(st@),
            char_views(out@) == named_steps(st2.subrange(0, i as int)),
        decreases st@.len() - i,
    {
        let ghost pre = st2.subrange(0, i as int + 1);
        assert(pre.drop_last() =~= st2.subrange(0, i as int));
        assert(pre.last() == st@[i as int]@);
        if !is_up(&st[i]) {
            let ghost before = char_views(out@);
            out.push(copy_chars(&st[i]));
            assert(char_views(out@) =~= before.push(st@[i as int]@));
        }
        i = i + 1;
    }
    assert(st2.subrange(0, st@.len() as int) =~= st2);
    out
}

/// One candidate slug: the last `depth` parts of the path, then the topic
/// name unless the last part already is it, joined by `-`.
pub open spec fn candidate(parts: Seq<Seq<char>>, depth: int, name: Seq<char>) -> Seq<char> {
    let start = if parts.len() >= depth { parts.len() - depth } else { 0 };
    let suffix = parts.subrange(start, parts.len() as int);
    let chosen = if suffix.len() > 0 && suffix.last() == name {
        suffix
    } else {
        suffix.push(name)
    };
    sanitized(join(chosen, seq!['-']))
}

/// The candidates of a group at one depth.
pub open spec fn candidates(parts: Seq<Seq<Seq<char>>>, depth: int, name: Seq<char>) -> Seq<Seq<char>> {
    Seq::new(parts.len(), |i: int| candidate(parts[i], depth, name))
}

/// No two of `s` are the same.
pub open spec fn distinct(s: Seq<Seq<char>>) -> bool {
    forall|a: int, b: int| 0 <= a < b < s.len() ==> (#[trigger] s[a]) != (#[trigger] s[b])
}

/// The most parts any path of a group has.
pub open spec fn deepest(parts: Seq<Seq<Seq<char>>>) -> int
    decreases parts.len(),
{
    if parts.len() == 0 {
        0
    } else {
        let d = deepest(parts.drop_last());
        if parts.last().len() > d { parts.last().len() as int } else { d }
    }
}

/// The first depth from `d` on, up to the deepest, whose candidates tell
/// the group apart.
pub open spec fn first_depth(parts: Seq<Seq<Seq<char>>>, name: Seq<char>, d: int) -> Option<int>
    decreases deepest(parts) + 1 - d,
{
    if d < 1 || d > deepest(parts) {
        None
    } else if distinct(candidates(parts, d, name)) {
        Some(d)
    } else {
        first_depth(parts, name, d + 1)
    }
}

/// The slugs of a group of same-named topics, given their paths: the
/// shortest path suffix that tells them apart, or, where none does, the
/// name and a counter.
pub open spec fn group_slugs(paths: Seq<Seq<char>>, name: Seq<char>) -> Seq<Seq<char>> {
    let parts = Seq::new(paths.len(), |i: int| stem_parts(paths[i]));
    match first_depth(parts, name, 1) {
        Some(d) => candidates(parts, d, name),
        None => Seq::new(paths.len(), |i: int| sanitized(name + seq!['-'] + decimal((i + 1) as nat))),
    }
}

fn candidate_exec(parts: &Vec<Vec<char>>, depth: usize, name: &Vec<char>) -> (r: Vec<char>)
    ensures
        r@ == candidate(char_views(parts@), depth as int, name@),
{
    let start = if parts.len() >= depth { parts.len() - depth } else { 0 };
    let mut chosen: Vec<Vec<char>> = Vec::new();
    let mut i = start;
    while i < parts.len()
        invariant
            start <= i <= parts@.len(),
            char_views(chosen@) == char_views(parts@).subrange(start as int, i as int),
        decreases parts@.len() - i,
    {
        let ghost before = char_views(chosen@);
        let part = copy_chars(&parts[i]);
        chosen.push(part);
        assert(char_views(chosen@) =~= before.push(parts@[i as int]@));
        assert(char_views(parts@)[i as int] == parts@[i as int]@);
        assert(char_views(chosen@) =~= char_views(parts@).subrange(start as int, i as int + 1));
        i = i + 1;
    }
    let n = chosen.len();
    let ends_with_name = n > 0 && seq_eq(&chosen[n - 1], name);
    if n > 0 {
        assert(char_views(chosen@).last() == chosen@[n - 1]@);
    }
    if !ends_with_name {
        let ghost before = char_views(chosen@);
        chosen.push(copy_chars(name));
        assert(char_views(chosen@) =~= before.push(name@));
    }
    let joined = join_exec(&chosen, "-");
    proof {
        reveal_strlit("-");
        assert("-"@ =~= seq!['-']);
    }
    sanitize_chars(&joined)
}

fn distinct_exec(s: &Vec<Vec<char>>) -> (r: bool)
    ensures
        r == distinct(char_views(s@)),
{
    let mut a: usize = 0;
    while a < s.len()
        invariant
            a <= s@.len(),
            forall|x: int, y: int| 0 <= x < a && x < y < s@.len() ==> (#[trigger] char_views(s@)[x]) != (#[trigger] char_views(s@)[y]),
        decreases s@.len() - a,
    {
        let mut b: usize = a + 1;
        while b < s.len()
            invariant
                a < s@.len(),
                a + 1 <= b <= s@.len(),
                forall|x: int, y: int| 0 <= x < a && x < y < s@.len() ==> (#[trigger] char_views(s@)[x]) != (#[trigger] char_views(s@)[y]),
                forall|y: int| a < y < b ==> char_views(s@)[a as int] != #[trigger] char_views(s@)[y],
            decreases s@.len() - b,
        {
            if seq_eq(&s[a], &s[b]) {
                assert(char_views(s@)[a as int] == char_views(s@)[b as int]);
                return false;
            }
            b = b + 1;
        }
        a = a + 1;
    }
    true
}

proof fn lemma_deepest(parts: Seq<Seq<Seq<char>>>)
    ensures
        deepest(parts) >= 0,
        forall|i: int| 0 <= i < parts.len() ==> (#[trigger] parts[i]).len() <= deepest(parts),
    decreases parts.len(),
{
    if parts.len() > 0 {
        lemma_deepest(parts.drop_last());
        assert forall|i: int| 0 <= i < parts.len() implies (#[trigger] parts[i]).len() <= deepest(parts) by {
            if i < parts.len() - 1 {
                assert(parts[i] == parts.drop_last()[i]);
            }
        }
    }
}

/// File stems for one group of same-named topics, given their paths.
pub fn disambiguate(paths: &Vec<Vec<char>>, name: &Vec<char>) -> (r: Vec<Vec<char>>)
    ensures
        char_views(r@) == group_slugs(char_views(paths@), name@),
        r@.len() == paths@.len(),
{
    let ghost views = char_views(paths@);
    let ghost spec_parts = Seq::new(views.len(), |i: int| stem_parts(views[i]));
    let mut parts: Vec<Vec<Vec<char>>> = Vec::new();
    let mut deep: usize = 0;
    let mut i: usize = 0;
    while i < paths.len()
        invariant
            i <= paths@.len(),
            views == char_views(paths@),
            parts@.len() == i,
            spec_parts == Seq::new(views.len(), |i: int| stem_parts(views[i])),
            forall|k: int| 0 <= k < i ==> char_views(#[trigger] parts@[k]@) == spec_parts[k],
            deep as int == deepest(Seq::new(i as nat, |k: int| spec_parts[k])),
        decreases paths@.len() - i,
    {
        let p = stem_parts_exec(&paths[i]);
        assert(views[i as int] == paths@[i as int]@);
        let ghost prev = Seq::new(i as nat, |k: int| spec_parts[k]);
        let ghost next = Seq::new(i as nat + 1, |k: int| spec_parts[k]);
        assert(next.drop_last() =~= prev);
        assert(p@.len() == spec_parts[i as int].len());
        assert(next.last() == spec_parts[i as int]);
        if p.len() > deep {
            deep = p.len();
        }
        let ghost old_parts = parts@;
        parts.push(p);
        assert forall|k: int| 0 <= k < i + 1 implies char_views(#[trigger] parts@[k]@) == spec_parts[k] by {
            if k < i {
                assert(parts@[k] == old_parts[k]);
            }
        }
        i = i + 1;
    }
    let ghost all = Seq::new(paths@.len(), |k: int| spec_parts[k]);
    assert(all =~= spec_parts);
    let mut d0: usize = 0;
    while d0 < deep
        invariant
            d0 <= deep,
            parts@.len() == paths@.len(),
            views == char_views(paths@),
            forall|k: int| 0 <= k < parts@.len() ==> char_views(#[trigger] parts@[k]@) == spec_parts[k],
            deep as int == deepest(spec_parts),
            spec_parts.len() == paths@.len(),
            first_depth(spec_parts, name@, 1) == first_depth(spec_parts, name@, d0 + 1),
            spec_parts == Seq::new(views.len(), |i: int| stem_parts(views[i])),
        decreases deep - d0,
    {
        let depth = d0 + 1;
        let mut cands: Vec<Vec<char>> = Vec::new();
        let mut k: usize = 0;
        while k < parts.len()
            invariant
                k <= parts@.len(),
                forall|j: int| 0 <= j < parts@.len() ==> char_views(#[trigger] parts@[j]@) == spec_parts[j],
                char_views(cands@) == candidates(spec_parts, depth as int, name@).subrange(0, k as int),
                spec_parts.len() == parts@.len(),
            decreases parts@.len() - k,
        {
            let c = candidate_exec(&parts[k], depth, name);
            assert(char_views(parts@[k as int]@) == spec_parts[k as int]);
            assert(c@ == candidates(spec_parts, depth as int, name@)[k as int]);
            let ghost before = char_views(cands@);
            cands.push(c);
            assert(char_views(cands@) =~= before.push(c@));
            assert(char_views(cands@) =~= candidates(spec_parts, depth as int, name@).subrange(0, k as int + 1));
            k = k + 1;
        }
        assert(candidates(spec_parts, depth as int, name@).subrange(0, parts@.len() as int) =~= candidates(spec_parts, depth as int, name@));
        if distinct_exec(&cands) {
            assert(first_depth(spec_parts, name@, depth as int) == Some(depth as int));
            return cands;
        }
        d0 = d0 + 1;
    }
    assert(first_depth(spec_parts, name@, deep + 1) is None);
    let mut out: Vec<Vec<char>> = Vec::new();
    let mut m: usize = 0;
    while m < paths.len()
        invariant
            m <= paths@.len(),
            char_views(out@) == Seq::new(m as nat, |j: int| sanitized(name@ + seq!['-'] + decimal((j + 1) as nat))),
        decreases paths@.len() - m,
    {
        let mut s = copy_chars(name);
        s.push('-');
        let number = decimal_exec(m + 1);
        push_chars(&mut s, &number);
        let slug = sanitize_chars(&s);
        assert(s@ =~= name@ + seq!['-'] + decimal((m + 1) as nat));
        let ghost before = char_views(out@);
        out.push(slug);
        assert(char_views(out@) =~= before.push(sanitized(name@ + seq!['-'] + decimal((m + 1) as nat))));
        assert(char_views(out@) =~= Seq::new(m as nat + 1, |j: int| sanitized(name@ + seq!['-'] + decimal((j + 1) as nat))));
        m = m + 1;
    }
    out
}

/// The paths of the topics named `n`, in order; `es` pairs each topic's
/// source path with its name.
pub open spec fn group_paths(es: Seq<(String, String)>, n: Seq<char>) -> Seq<Seq<char>>
    decreases es.len(),
{
    if es.len() == 0 {
        Seq::<Seq<char>>::empty()
    } else if es.last().1@ == n {
        group_paths(es.drop_last(), n).push(es.last().0@)
    } else {
        group_paths(es.drop_last(), n)
    }
}

/// The slug of the `k`-th topic: its sanitized name where the name is its
/// own, else its group's slug at its place in the group.
pub open spec fn slug_of(es: Seq<(String, String)>, k: int) -> Seq<char> {
    let n = es[k].1@;
    let g = group_paths(es, n);
    if g.len() == 1 {
        sanitized(n)
    } else {
        group_slugs(g, n)[group_paths(es.subrange(0, k), n).len() as int]
    }
}

pub(crate) proof fn lemma_group_grows(es: Seq<(String, String)>, n: Seq<char>, a: int, b: int)
    requires
        0 <= a <= b <= es.len(),
    ensures
        group_paths(es.subrange(0, a), n).len() <= group_paths(es.subrange(0, b), n).len(),
    decreases b - a,
{
    if a < b {
        lemma_group_grows(es, n, a, b - 1);
        assert(es.subrange(0, b).drop_last() =~= es.subrange(0, b - 1));
    }
}

/// One slug per topic, index-aligned with `entries`, each entry pairing a
/// topic's source path with its name.
///
/// The usual slug is the topic's name, but topics sharing a name would
/// address, and overwrite, each other. A colliding group instead takes the
/// shortest suffix of each source path that tells its members apart
/// (mosaic's two `image` functions become `component-image` and
/// `layout-image`); same-named topics from the very same file, which no
/// path can separate, are told apart by a counter.
pub fn topic_slugs(entries: &Vec<(String, String)>) -> (r: Vec<String>)
    ensures
        r@.len() == entries@.len(),
        forall|k: int| 0 <= k < r@.len() ==> (#[trigger] r@[k])@ == slug_of(entries@, k),
{
    let mut out: Vec<String> = Vec::new();
    let mut k: usize = 0;
    while k < entries.len()
        invariant
            k <= entries@.len(),
            out@.len() == k,
            forall|j: int| 0 <= j < k ==> (#[trigger] out@[j])@ == slug_of(entries@, j),
        decreases entries@.len() - k,
    {
        let name = chars_of(entries[k].1.as_str());
        let mut group: Vec<Vec<char>> = Vec::new();
        let mut rank: usize = 0;
        let mut j: usize = 0;
        assert(entries@.subrange(0, 0) =~= Seq::<(String, String)>::empty());
        while j < entries.len()
            invariant
                j <= entries@.len(),
                k < entries@.len(),
                name@ == entries@[k as int].1@,
                char_views(group@) == group_paths(entries@.subrange(0, j as int), name@),
                rank == group_paths(entries@.subrange(0, if j <= k { j as int } else { k as int }), name@).len(),
                rank <= j,
            decreases entries@.len() - j,
        {
            let ghost pre = entries@.subrange(0, j as int + 1);
            assert(pre.drop_last() =~= entries@.subrange(0, j as int));
            assert(pre.last() == entries@[j as int]);
            if str_eq(entries[j].1.as_str(), entries[k].1.as_str()) {
                let ghost before = char_views(group@);
                group.push(chars_of(entries[j].0.as_str()));
                assert(char_views(group@) =~= before.push(entries@[j as int].0@));
                if j < k {
                    rank = rank + 1;
                }
            }
            j = j + 1;
        }
        assert(entries@.subrange(0, entries@.len() as int) =~= entries@);
        let slug = if group.len() == 1 {
            sanitize_chars(&name)
        } else {
            let slugs = disambiguate(&group, &name);
            proof {
                lemma_group_grows(entries@, name@, k as int + 1, entries@.len() as int);
                let pre = entries@.subrange(0, k as int + 1);
                assert(pre.drop_last() =~= entries@.subrange(0, k as int));
                assert(pre.last() == entries@[k as int]);
            }
            assert(char_views(slugs@)[rank as int] == slugs@[rank as int]@);
            copy_chars(&slugs[rank])
        };
        out.push(string_of(slug.as_slice()));
        proof {
            assert forall|m: int| 0 <= m < k + 1 implies (#[trigger] out@[m])@ == slug_of(entries@, m) by {
                if m < k {
                    assert(out@[m] == out@.drop_last()[m]);
                }
            }
        }
        k = k + 1;
    }
    out
}

/// The names of the topics, in order.
pub open spec fn entry_names(es: Seq<(String, String)>) -> Seq<Seq<char>> {
    Seq::new(es.len(), |i: int| es[i].1@)
}

/// The pairs of name and label of the topics among `es[..n]` whose name no
/// other topic of `es` shares.
pub open spec fn labels_of(es: Seq<(String, String)>, slugs: Seq<String>, n: int) -> Seq<(Seq<char>, Seq<char>)>
    decreases n,
{
    if n <= 0 {
        Seq::empty()
    } else if shared(entry_names(es), es[n - 1].1@) {
        labels_of(es, slugs, n - 1)
    } else {
        labels_of(es, slugs, n - 1).push((es[n - 1].1@, slugs[n - 1]@))
    }
}

/// The views of some pairs of strings.
pub open spec fn pair_views(v: Seq<(String, String)>) -> Seq<(Seq<char>, Seq<char>)> {
    Seq::new(v.len(), |i: int| (v[i].0@, v[i].1@))
}

/// Every topic name in the run that addresses exactly one heading, paired
/// with the label that heading carries: a shared name addresses two
/// headings, so it addresses neither. `entries` pairs each topic's source
/// path with its name, and `slugs` are its labels.
pub fn unique_labels(entries: &Vec<(String, String)>, slugs: &Vec<String>) -> (r: Vec<(String, String)>)
    requires
        slugs@.len() == entries@.len(),
    ensures
        pair_views(r@) == labels_of(entries@, slugs@, entries@.len() as int),
{
    let mut names: Vec<String> = Vec::new();
    let mut i: usize = 0;
    while i < entries.len()
        invariant
            i <= entries@.len(),
            names@.len() == i,
            forall|m: int| 0 <= m < i ==> (#[trigger] names@[m]) == entries@[m].1,
        decreases entries@.len() - i,
    {
        names.push(entries[i].1.clone());
        i = i + 1;
    }
    assert(views(names@) =~= entry_names(entries@));
    let twice = duplicated_names(&names);
    let mut out: Vec<(String, String)> = Vec::new();
    let mut j: usize = 0;
    while j < entries.len()
        invariant
            j <= entries@.len(),
            views(names@) == entry_names(entries@),
            slugs@.len() == entries@.len(),
            forall|n: Seq<char>| #[trigger] shared(views(names@), n) ==> listed(twice@, n),
            forall|k: int| 0 <= k < twice@.len() ==> shared(views(names@), (#[trigger] twice@[k])@),
            pair_views(out@) == labels_of(entries@, slugs@, j as int),
        decreases entries@.len() - j,
    {
        let n = entries[j].1.as_str();
        if !occurs_before(&twice, twice.len(), n) {
            assert(!shared(entry_names(entries@), entries@[j as int].1@));
            let ghost before = out@;
            out.push((owned(n), slugs[j].clone()));
            assert(pair_views(out@) =~= pair_views(before).push((entries@[j as int].1@, slugs@[j as int]@)));
        } else {
            proof {
                let k = choose|k: int| 0 <= k < twice@.len() && (#[trigger] twice@[k])@ == n@;
                assert(shared(views(names@), twice@[k]@));
            }
        }
        j = j + 1;
    }
    out
}

// -- the index ----------------------------------------------------------------------

/// What the index of a split manual holds: an outline, then an `#include`
/// of every topic file.
pub open spec fn index_text(names: Seq<String>) -> Seq<char>
    decreases names.len(),
{
    if names.len() == 0 {
        "#outline(depth: 1)\n"@
    } else {
        index_text(names.drop_last()) + "\n#include "@ + string_literal(names.last()@) + "\n"@
    }
}

/// The entry point of a split manual, given its file names: a table of
/// contents followed by an `#include` of every topic file, so one `typst
/// compile index.typ` builds the whole reference and cross-topic references
/// resolve. `None` where a topic file is itself named `index.typ`, which
/// the index would overwrite.
pub fn index_document(names: &Vec<String>) -> (r: Option<String>)
    ensures
        match r {
            Some(text) => (forall|k: int| 0 <= k < names@.len() ==> (#[trigger] names@[k])@ != "index.typ"@)
                && text@ == index_text(names@),
            None => exists|k: int| 0 <= k < names@.len() && (#[trigger] names@[k])@ == "index.typ"@,
        },
{
    let mut k: usize = 0;
    while k < names.len()
        invariant
            k <= names@.len(),
            forall|j: int| 0 <= j < k ==> (#[trigger] names@[j])@ != "index.typ"@,
        decreases names@.len() - k,
    {
        if str_eq(names[k].as_str(), "index.typ") {
            return None;
        }
        k = k + 1;
    }
    let mut out: Vec<char> = Vec::new();
    push_str(&mut out, "#outline(depth: 1)\n");
    let mut i: usize = 0;
    assert(names@.subrange(0, 0) =~= Seq::<String>::empty());
    while i < names.len()
        invariant
            i <= names@.len(),
            out@ == index_text(names@.subrange(0, i as int)),
        decreases names@.len() - i,
    {
        push_str(&mut out, "\n#include ");
        let quoted = typst_string(names[i].as_str());
        push_str(&mut out, quoted.as_str());
        push_str(&mut out, "\n");
        let ghost pre = names@.subrange(0, i as int + 1);
        assert(pre.drop_last() =~= names@.subrange(0, i as int));
        assert(pre.last() == names@[i as int]);
        i = i + 1;
    }
    assert(names@.subrange(0, names@.len() as int) =~= names@);
    Some(string_of(out.as_slice()))
}

// -- reading one file ---------------------------------------------------------------

/// Why a file could not be read as documentation.
#[derive(Debug)]
pub enum ReadError {
    /// Its extension selects no reader.
    Unrecognised,
    /// The Rd parser refused it.
    Rd(RdError),
    /// The Python parser refused it.
    Python(PythonError),
    /// It is not a man(7) page.
    Man(ManError),
}

/// The topics read from one file, and, where the file was skipped as a
/// manual stub or an mdoc(7) page while scanning a directory, why.
pub struct Reading {
    pub topics: Vec<Topic>,
    pub skipped: Option<ManError>,
}

/// Read one file's source with the reader its extension selects. `module`
/// is the dotted name of a Python module, and `lenient` whether the file
/// was found while scanning a directory rather than named: scanning skips
/// `.so` stubs and mdoc(7) pages, naming one reports what it is.
pub fn read_source(path: &str, source: &str, module: &str, lenient: bool) -> (r: Result<Reading, ReadError>)
    ensures
        format_of(path@) is None <==> r matches Err(ReadError::Unrecognised),
        format_of(path@) matches Some(Format::Rd) ==> (r is Ok <==> r::tree::rd_parses(source@)),
        format_of(path@) matches Some(Format::Python) ==> (r is Ok <==> crate::python::syntax::python_parses(source@, path@)),
        format_of(path@) matches Some(Format::Typst) ==> r is Ok,
        format_of(path@) matches Some(Format::Man) ==> (
            (man::redirect_spec(source@) is Some ==> if lenient {
                r matches Ok(x) && x.topics@.len() == 0 && x.skipped matches Some(ManError::Redirect { .. })
            } else {
                r matches Err(ReadError::Man(ManError::Redirect { .. }))
            })
            && (r matches Err(ReadError::Man(ManError::Mdoc)) ==> !lenient && man::is_mdoc_spec(source@))
            && match r {
                Ok(x) => x.skipped is Some ==> lenient && x.topics@.len() == 0,
                Err(_) => true,
            }
        ),
        match r {
            Ok(x) => x.skipped is None ==> (format_of(path@) matches Some(Format::Man) ==> x.topics@.len() == 1),
            Err(_) => true,
        },
        format_of(path@) matches Some(Format::Rd) ==> match r {
            Ok(x) => x.skipped is None && x.topics@.len() == 1 && r::rd_topic(x.topics@[0], r::tree::rd_tree(source@)),
            Err(_) => true,
        },
        format_of(path@) matches Some(Format::Python) ==> match r {
            Ok(x) => x.skipped is None && python::topics_are(
                x.topics@,
                python::module_entities(python::python_suite(source@, path@), module@),
            ),
            Err(_) => true,
        },
        format_of(path@) matches Some(Format::Typst) ==> match r {
            Ok(x) => x.skipped is None && typ::typ_topics_are(
                x.topics@,
                typ::walk(typ::syntax::markup_tree(source@), seq![]).0,
            ),
            Err(_) => true,
        },
        (format_of(path@) matches Some(Format::Man) && man::redirect_spec(source@) is None) ==> exists|
            m: Result<Topic, ManError>,
        |
            #[trigger] man::page_read(source@, m) && match m {
                Ok(t) => r matches Ok(x) && x.skipped is None && x.topics@ == seq![t],
                Err(e) => if lenient && e is Mdoc {
                    r matches Ok(x) && x.topics@.len() == 0 && x.skipped == Some(e)
                } else {
                    r matches Err(ReadError::Man(f)) && f == e
                },
            },
{
    match reader_for(path) {
        None => Err(ReadError::Unrecognised),
        Some(Format::Rd) => match r::parse(source) {
            Ok(topic) => {
                let mut topics: Vec<Topic> = Vec::new();
                topics.push(topic);
                Ok(Reading { topics, skipped: None })
            },
            Err(error) => Err(ReadError::Rd(error)),
        },
        Some(Format::Python) => match python::parse_module(source, path, module) {
            Ok(topics) => Ok(Reading { topics, skipped: None }),
            Err(error) => Err(ReadError::Python(error)),
        },
        Some(Format::Typst) => Ok(Reading { topics: typ::parse(source), skipped: None }),
        Some(Format::Man) => match man::parse(source) {
            Ok(topic) => {
                let mut topics: Vec<Topic> = Vec::new();
                topics.push(topic);
                Ok(Reading { topics, skipped: None })
            },
            Err(error) => {
                let skip = match &error {
                    ManError::Redirect { .. } => lenient,
                    ManError::Mdoc => lenient,
                    ManError::NotAManPage => false,
                };
                if skip {
                    Ok(Reading { topics: Vec::new(), skipped: Some(error) })
                } else {
                    Err(ReadError::Man(error))
                }
            },
        },
    }
}

// -- choosing the topics ------------------------------------------------------------

/// Why a run has nothing to render.
#[derive(Debug, Clone, Copy, PartialEq, Eq)]
pub enum RunError {
    /// No documented entity was found at all.
    NothingFound,
    /// Every topic found is internal; `--include-internal` renders them.
    OnlyInternal,
}

/// The topics of `es` that are not internal, in order.
pub open spec fn public_topics(es: Seq<(String, Topic)>) -> Seq<(String, Topic)>
    decreases es.len(),
{
    if es.len() == 0 {
        es
    } else if crate::ir::topic::spec_is_internal(es.last().1) {
        public_topics(es.drop_last())
    } else {
        public_topics(es.drop_last()).push(es.last())
    }
}

proof fn lemma_no_public(es: Seq<(String, Topic)>)
    requires
        public_topics(es).len() == 0,
    ensures
        forall|k: int| 0 <= k < es.len() ==> crate::ir::topic::spec_is_internal((#[trigger] es[k]).1),
    decreases es.len(),
{
    if es.len() > 0 {
        lemma_no_public(es.drop_last());
        assert forall|k: int| 0 <= k < es.len() implies crate::ir::topic::spec_is_internal((#[trigger] es[k]).1) by {
            if k < es.len() - 1 {
                assert(es[k] == es.drop_last()[k]);
            }
        }
    }
}

/// The topics a run renders: all of them with `include_internal`, else
/// those that are not internal, in order. A run left with none fails, and
/// says whether it found any.
pub fn select_topics(topics: Vec<(String, Topic)>, include_internal: bool) -> (r: Result<Vec<(String, Topic)>, RunError>)
    ensures
        topics@.len() == 0 <==> r matches Err(RunError::NothingFound),
        r matches Err(RunError::OnlyInternal) ==> !include_internal && topics@.len() > 0 && forall|k: int|
            0 <= k < topics@.len() ==> crate::ir::topic::spec_is_internal((#[trigger] topics@[k]).1),
        r matches Ok(kept) ==> kept@.len() > 0 && (include_internal ==> kept@ == topics@) && (!include_internal
            ==> kept@ == public_topics(topics@)),
{
    if topics.len() == 0 {
        return Err(RunError::NothingFound);
    }
    if include_internal {
        return Ok(topics);
    }
    let ghost all = topics@;
    let mut rest = topics;
    let mut kept: Vec<(String, Topic)> = Vec::new();
    assert(all.subrange(0, 0) =~= Seq::<(String, Topic)>::empty());
    assert(all.subrange(0, all.len() as int) =~= all);
    while rest.len() > 0
        invariant
            rest@.len() <= all.len(),
            rest@ == all.subrange(all.len() - rest@.len(), all.len() as int),
            kept@ == public_topics(all.subrange(0, all.len() - rest@.len())),
        decreases rest@.len(),
    {
        let ghost done = all.len() - rest@.len();
        let e = rest.remove(0);
        assert(e == all[done]);
        assert(rest@ =~= all.subrange(done + 1, all.len() as int));
        let ghost pre = all.subrange(0, done + 1);
        assert(pre.drop_last() =~= all.subrange(0, done));
        assert(pre.last() == e);
        if !e.1.is_internal() {
            kept.push(e);
        }
    }
    if kept.len() == 0 {
        proof {
            lemma_no_public(all);
        }
        return Err(RunError::OnlyInternal);
    }
    Ok(kept)
}

// -- dangling references ------------------------------------------------------------

/// Where the first character of `s[i..]` that is not one of `cs` stands.
pub open spec fn skip_from(s: Seq<char>, i: int, cs: Seq<char>) -> int
    decreases s.len() - i,
{
    if i < 0 || i >= s.len() || !cs.contains(s[i]) {
        i
    } else {
        skip_from(s, i + 1, cs)
    }
}

/// Where `s[lo..n]` ends once the characters of `cs` at its end are gone.
pub open spec fn skip_back(s: Seq<char>, lo: int, n: int, cs: Seq<char>) -> int
    decreases n - lo,
{
    if n <= lo || n > s.len() || !cs.contains(s[n - 1]) {
        n
    } else {
        skip_back(s, lo, n - 1, cs)
    }
}

/// A label's text without the `<` and `>` around it (`trim_matches`).
pub open spec fn unangled(s: Seq<char>) -> Seq<char> {
    let a = skip_from(s, 0, seq!['<', '>']);
    s.subrange(a, skip_back(s, a, s.len() as int, seq!['<', '>']))
}

/// A reference's text without the `@`s before it (`trim_start_matches`).
pub open spec fn unat(s: Seq<char>) -> Seq<char> {
    s.subrange(skip_from(s, 0, seq!['@']), s.len() as int)
}

proof fn lemma_skip_from(s: Seq<char>, i: int, cs: Seq<char>)
    requires
        0 <= i <= s.len(),
    ensures
        i <= skip_from(s, i, cs) <= s.len(),
    decreases s.len() - i,
{
    if i < s.len() && cs.contains(s[i]) {
        lemma_skip_from(s, i + 1, cs);
    }
}

proof fn lemma_skip_back(s: Seq<char>, lo: int, n: int, cs: Seq<char>)
    requires
        0 <= lo <= n <= s.len(),
    ensures
        lo <= skip_back(s, lo, n, cs) <= n,
    decreases n - lo,
{
    if n > lo && cs.contains(s[n - 1]) {
        lemma_skip_back(s, lo, n - 1, cs);
    }
}

fn unangled_exec(s: &Vec<char>) -> (r: Vec<char>)
    ensures
        r@ == unangled(s@),
{
    let ghost cs = seq!['<', '>'];
    let mut a: usize = 0;
    while a < s.len() && (s[a] == '<' || s[a] == '>')
        invariant
            a <= s@.len(),
            cs == seq!['<', '>'],
            skip_from(s@, 0, cs) == skip_from(s@, a as int, cs),
        decreases s@.len() - a,
    {
        assert(cs.contains(s@[a as int])) by {
            assert(cs[0] == '<' && cs[1] == '>');
        }
        a = a + 1;
    }
    if a < s.len() {
        assert(!cs.contains(s@[a as int])) by {
            if cs.contains(s@[a as int]) {
                let k = choose|k: int| 0 <= k < cs.len() && cs[k] == s@[a as int];
                assert(k == 0 || k == 1);
            }
        }
    }
    let mut b: usize = s.len();
    while b > a && (s[b - 1] == '<' || s[b - 1] == '>')
        invariant
            a <= b <= s@.len(),
            cs == seq!['<', '>'],
            skip_from(s@, 0, cs) == a,
            skip_back(s@, a as int, s@.len() as int, cs) == skip_back(s@, a as int, b as int, cs),
        decreases b,
    {
        assert(cs.contains(s@[b - 1])) by {
            assert(cs[0] == '<' && cs[1] == '>');
        }
        b = b - 1;
    }
    if b > a {
        assert(!cs.contains(s@[b - 1])) by {
            if cs.contains(s@[b - 1]) {
                let k = choose|k: int| 0 <= k < cs.len() && cs[k] == s@[b - 1];
                assert(k == 0 || k == 1);
            }
        }
    }
    slice_chars(s, a, b)
}

fn unat_exec(s: &Vec<char>) -> (r: Vec<char>)
    ensures
        r@ == unat(s@),
{
    let ghost cs = seq!['@'];
    let mut a: usize = 0;
    while a < s.len() && s[a] == '@'
        invariant
            a <= s@.len(),
            cs == seq!['@'],
            skip_from(s@, 0, cs) == skip_from(s@, a as int, cs),
        decreases s@.len() - a,
    {
        assert(cs.contains(s@[a as int])) by {
            assert(cs[0] == '@');
        }
        a = a + 1;
    }
    if a < s.len() {
        assert(!cs.contains(s@[a as int])) by {
            if cs.contains(s@[a as int]) {
                let k = choose|k: int| 0 <= k < cs.len() && cs[k] == s@[a as int];
                assert(k == 0);
            }
        }
    }
    slice_chars(s, a, s.len())
}

/// The labels a tree defines, in source order.
pub open spec fn tree_labels(c: Cst) -> Seq<Seq<char>>
    decreases c, 1nat,
{
    (if c.kind@ == "label"@ {
        seq![unangled(c.text@)]
    } else {
        Seq::<Seq<char>>::empty()
    }) + forest_labels(c.children@)
}

pub open spec fn forest_labels(cs: Seq<Cst>) -> Seq<Seq<char>>
    decreases cs, 0nat,
{
    if cs.len() == 0 {
        Seq::<Seq<char>>::empty()
    } else {
        forest_labels(cs.drop_last()) + tree_labels(cs.last())
    }
}

/// The targets a tree refers to with `@`, in source order.
pub open spec fn tree_refs(c: Cst) -> Seq<Seq<char>>
    decreases c, 1nat,
{
    (if c.kind@ == "reference marker"@ {
        seq![unat(c.text@)]
    } else {
        Seq::<Seq<char>>::empty()
    }) + forest_refs(c.children@)
}

pub open spec fn forest_refs(cs: Seq<Cst>) -> Seq<Seq<char>>
    decreases cs, 0nat,
{
    if cs.len() == 0 {
        Seq::<Seq<char>>::empty()
    } else {
        forest_refs(cs.drop_last()) + tree_refs(cs.last())
    }
}

fn scan_forest(cs: &Vec<Cst>, labels: &mut Vec<Vec<char>>, refs: &mut Vec<Vec<char>>)
    ensures
        char_views(final(labels)@) == char_views(old(labels)@) + forest_labels(cs@),
        char_views(final(refs)@) == char_views(old(refs)@) + forest_refs(cs@),
    decreases cs@, 0nat,
{
    let ghost l0 = char_views(labels@);
    let ghost r0 = char_views(refs@);
    let mut i: usize = 0;
    assert(cs@.subrange(0, 0) =~= Seq::<Cst>::empty());
    assert(l0 + Seq::<Seq<char>>::empty() =~= l0);
    assert(r0 + Seq::<Seq<char>>::empty() =~= r0);
    while i < cs.len()
        invariant
            i <= cs@.len(),
            char_views(labels@) == l0 + forest_labels(cs@.subrange(0, i as int)),
            char_views(refs@) == r0 + forest_refs(cs@.subrange(0, i as int)),
        decreases cs@.len() - i,
    {
        proof {
            assert(decreases_to!(cs@ => cs@[i as int]));
        }
        scan_tree(&cs[i], labels, refs);
        let ghost pre = cs@.subrange(0, i as int + 1);
        assert(pre.drop_last() =~= cs@.subrange(0, i as int));
        assert(pre.last() == cs@[i as int]);
        assert(char_views(labels@) =~= l0 + forest_labels(pre));
        assert(char_views(refs@) =~= r0 + forest_refs(pre));
        i = i + 1;
    }
    assert(cs@.subrange(0, cs@.len() as int) =~= cs@);
}

fn scan_tree(c: &Cst, labels: &mut Vec<Vec<char>>, refs: &mut Vec<Vec<char>>)
    ensures
        char_views(final(labels)@) == char_views(old(labels)@) + tree_labels(*c),
        char_views(final(refs)@) == char_views(old(refs)@) + tree_refs(*c),
    decreases *c, 1nat,
{
    let ghost l0 = char_views(labels@);
    let ghost r0 = char_views(refs@);
    proof {
        reveal_strlit("label");
        reveal_strlit("reference marker");
    }
    if str_eq(c.kind.as_str(), "label") {
        labels.push(unangled_exec(&chars_of(c.text.as_str())));
        assert(char_views(labels@) =~= l0 + seq![unangled(c.text@)]);
    } else {
        assert(l0 + Seq::<Seq<char>>::empty() =~= l0);
    }
    if str_eq(c.kind.as_str(), "reference marker") {
        refs.push(unat_exec(&chars_of(c.text.as_str())));
        assert(char_views(refs@) =~= r0 + seq![unat(c.text@)]);
    } else {
        assert(r0 + Seq::<Seq<char>>::empty() =~= r0);
    }
    let ghost l1 = char_views(labels@);
    let ghost r1 = char_views(refs@);
    scan_forest(&c.children, labels, refs);
    assert(char_views(labels@) =~= l0 + tree_labels(*c));
    assert(char_views(refs@) =~= r0 + tree_refs(*c));
}

/// Every label the documents define.
pub open spec fn all_labels(docs: Seq<(String, Cst)>) -> Seq<Seq<char>>
    decreases docs.len(),
{
    if docs.len() == 0 {
        Seq::<Seq<char>>::empty()
    } else {
        all_labels(docs.drop_last()) + tree_labels(docs.last().1)
    }
}

/// Every reference the documents make, with the topic it is made in.
pub open spec fn all_refs(docs: Seq<(String, Cst)>) -> Seq<(Seq<char>, Seq<char>)>
    decreases docs.len(),
{
    if docs.len() == 0 {
        Seq::empty()
    } else {
        all_refs(docs.drop_last()) + Seq::new(tree_refs(docs.last().1).len(), |k: int| (docs.last().0@, tree_refs(docs.last().1)[k]))
    }
}

/// The references among `refs` whose target is none of `labels`.
pub open spec fn unresolved(refs: Seq<(Seq<char>, Seq<char>)>, labels: Seq<Seq<char>>) -> Seq<(Seq<char>, Seq<char>)>
    decreases refs.len(),
{
    if refs.len() == 0 {
        refs
    } else if labels.contains(refs.last().1) {
        unresolved(refs.drop_last(), labels)
    } else {
        unresolved(refs.drop_last(), labels).push(refs.last())
    }
}

/// References that no document of the run defines a label for, each with
/// the topic it is written in, given each topic's name and its rendered
/// document's syntax tree.
pub fn dangling_in(docs: &Vec<(String, Cst)>) -> (r: Vec<(String, String)>)
    ensures
        pair_views(r@) == unresolved(all_refs(docs@), all_labels(docs@)),
{
    let mut labels: Vec<Vec<char>> = Vec::new();
    let mut refs: Vec<(String, String)> = Vec::new();
    let mut i: usize = 0;
    assert(docs@.subrange(0, 0) =~= Seq::<(String, Cst)>::empty());
    while i < docs.len()
        invariant
            i <= docs@.len(),
            char_views(labels@) == all_labels(docs@.subrange(0, i as int)),
            pair_views(refs@) == all_refs(docs@.subrange(0, i as int)),
        decreases docs@.len() - i,
    {
        let mut mine: Vec<Vec<char>> = Vec::new();
        let ghost l0 = char_views(labels@);
        scan_tree(&docs[i].1, &mut labels, &mut mine);
        let ghost r0 = pair_views(refs@);
        let ghost found = char_views(mine@);
        assert(found =~= tree_refs(docs@[i as int].1));
        let mut k: usize = 0;
        while k < mine.len()
            invariant
                k <= mine@.len(),
                found == char_views(mine@),
                pair_views(refs@) == r0 + Seq::new(k as nat, |m: int| (docs@[i as int].0@, found[m])),
                i < docs@.len(),
            decreases mine@.len() - k,
        {
            let ghost before = pair_views(refs@);
            let topic = docs[i].0.clone();
            let target = string_of(mine[k].as_slice());
            assert(found[k as int] == mine@[k as int]@);
            assert(target@ == found[k as int]);
            refs.push((topic, target));
            assert(pair_views(refs@) =~= before.push((docs@[i as int].0@, found[k as int])));
            assert(pair_views(refs@) =~= r0 + Seq::new(k as nat + 1, |m: int| (docs@[i as int].0@, found[m])));
            k = k + 1;
        }
        let ghost pre = docs@.subrange(0, i as int + 1);
        assert(pre.drop_last() =~= docs@.subrange(0, i as int));
        assert(pre.last() == docs@[i as int]);
        assert(char_views(labels@) =~= all_labels(pre));
        assert(pair_views(refs@) =~= all_refs(pre));
        i = i + 1;
    }
    assert(docs@.subrange(0, docs@.len() as int) =~= docs@);
    let ghost ls = char_views(labels@);
    let ghost rs = pair_views(refs@);
    let mut out: Vec<(String, String)> = Vec::new();
    let mut j: usize = 0;
    assert(rs.subrange(0, 0) =~= Seq::<(Seq<char>, Seq<char>)>::empty());
    while j < refs.len()
        invariant
            j <= refs@.len(),
            ls == char_views(labels@),
            rs == pair_views(refs@),
            pair_views(out@) == unresolved(rs.subrange(0, j as int), ls),
        decreases refs@.len() - j,
    {
        let target = chars_of(refs[j].1.as_str());
        let mut found = false;
        let mut m: usize = 0;
        while m < labels.len()
            invariant
                m <= labels@.len(),
                ls == char_views(labels@),
                found == exists|q: int| 0 <= q < m && ls[q] == target@,
            decreases labels@.len() - m,
        {
            assert(ls[m as int] == labels@[m as int]@);
            if seq_eq(&labels[m], &target) {
                found = true;
            }
            m = m + 1;
        }
        let ghost pre = rs.subrange(0, j as int + 1);
        assert(pre.drop_last() =~= rs.subrange(0, j as int));
        assert(pre.last() == rs[j as int]);
        assert(rs[j as int].1 == target@);
        if !found {
            let ghost before = pair_views(out@);
            out.push((refs[j].0.clone(), refs[j].1.clone()));
            assert(pair_views(out@) =~= before.push(rs[j as int]));
            assert(!ls.contains(target@));
        } else {
            assert(ls.contains(target@));
        }
        j = j + 1;
    }
    assert(rs.subrange(0, refs@.len() as int) =~= rs);
    out
}

/// Each topic's name with the syntax tree of its rendered document.
pub open spec fn rendered_trees(names: Seq<String>, rendered: Seq<String>) -> Seq<(String, Cst)> {
    Seq::new(names.len(), |i: int| (names[i], typ::syntax::markup_tree(rendered[i]@)))
}

/// References that no topic in this run defines, each with the topic it is
/// written in: `names` are the topics' names and `rendered` their
/// documents, in the same order. Refs and labels are counted in the
/// rendered documents, exactly as Typst will see them.
pub fn dangling_refs(names: &Vec<String>, rendered: &Vec<String>) -> (r: Vec<(String, String)>)
    requires
        names@.len() == rendered@.len(),
    ensures
        pair_views(r@) == unresolved(all_refs(rendered_trees(names@, rendered@)), all_labels(rendered_trees(names@, rendered@))),
{
    let mut docs: Vec<(String, Cst)> = Vec::new();
    let mut i: usize = 0;
    while i < names.len()
        invariant
            i <= names@.len(),
            names@.len() == rendered@.len(),
            docs@ == rendered_trees(names@, rendered@).subrange(0, i as int),
        decreases names@.len() - i,
    {
        let tree = typ::syntax::parse_markup(rendered[i].as_str());
        docs.push((names[i].clone(), tree));
        assert(docs@ =~= rendered_trees(names@, rendered@).subrange(0, i as int + 1));
        i = i + 1;
    }
    assert(rendered_trees(names@, rendered@).subrange(0, names@.len() as int) =~= rendered_trees(names@, rendered@));
    dangling_in(&docs)
}

} // verus!
