//! The public API of a Typst package, read from its entry point.
//!
//! A file's location says nothing about how it is imported: a package's
//! `lib.typ` re-exports what it chooses, under whatever names it chooses, so
//! `src/component/image.typ` may be reached as `image`, as `layout.image`, or
//! not at all. The manifest names the entry point and the entry point names
//! the API, which makes both facts readable rather than guessable.
//!
//! - **The public API cannot hold two things with the same name.** Names
//!   resolved here are unique by construction: [`Exports`] holds each
//!   definition once.
//! - **Reachability is what private means.** Not the `_` prefix, which is a
//!   convention, but whether a user of the package can call the thing at all.
//!
//! Files are named by their paths as text, resolved lexically (`.` and `..`
//! taken away); whoever reads them off a disk hands in canonical paths.

use vstd::prelude::*;

use super::syntax::{parse_markup, Cst, RawImport, RawItems};
use crate::paths::{
    copy_chars, file_stem, file_stem_exec, normal, normalize, parent, parent_exec, resolve,
    resolve_exec, steps, pieces, path_steps, absolute,
};
use crate::text::{
    char_views, chars_of, lines_from, lines_of, owned, push_chars, push_str, slice_chars,
    starts_with, starts_with_exec, str_eq, string_of, trim, trim_chars, trim_start,
    trim_start_chars, seq_eq,
};

verus! {

// -- imports and bindings ---------------------------------------------------------

/// The items of one `#import`.
pub enum Items {
    /// `#import "m.typ" as m`, or the bare form that binds the file stem.
    Module(String),
    /// `#import "m.typ": *`
    Wildcard,
    /// `#import "m.typ": a, b as c`, as (original, bound) pairs.
    Named(Vec<(String, String)>),
}

/// One `#import` in a file.
pub struct Import {
    /// The file imported, or `None` for a package import: an `@preview`
    /// import is somebody else's API, not this package's.
    pub target: Option<String>,
    pub items: Items,
}

/// The imports a tree holds that name a file by a string, in source order
/// (each node before its children).
pub open spec fn tree_imports(c: Cst) -> Seq<RawImport>
    decreases c, 1nat,
{
    let own = match c.import {
        Some(raw) => if raw.source is Some {
            seq![raw]
        } else {
            Seq::<RawImport>::empty()
        },
        None => Seq::<RawImport>::empty(),
    };
    own + forest_imports(c.children@)
}

pub open spec fn forest_imports(cs: Seq<Cst>) -> Seq<RawImport>
    decreases cs, 0nat,
{
    if cs.len() == 0 {
        Seq::<RawImport>::empty()
    } else {
        forest_imports(cs.drop_last()) + tree_imports(cs.last())
    }
}

/// The names the `let` expressions of a tree bind, in source order.
pub open spec fn tree_bindings(c: Cst) -> Seq<String>
    decreases c, 1nat,
{
    c.bindings@ + forest_bindings(c.children@)
}

pub open spec fn forest_bindings(cs: Seq<Cst>) -> Seq<String>
    decreases cs, 0nat,
{
    if cs.len() == 0 {
        Seq::<String>::empty()
    } else {
        forest_bindings(cs.drop_last()) + tree_bindings(cs.last())
    }
}

/// The name a bare `#import` binds: the one after `as`, else the stem of
/// the imported path, else nothing.
pub open spec fn bare_binding(new_name: Option<String>, path: Seq<char>) -> Seq<char> {
    match new_name {
        Some(n) => n@,
        None => match file_stem(path) {
            Some(s) => s,
            None => Seq::<char>::empty(),
        },
    }
}

/// Whether two lists of name pairs hold the same names.
pub open spec fn same_pairs(a: Seq<(String, String)>, b: Seq<(String, String)>) -> bool {
    a.len() == b.len() && forall|k: int|
        0 <= k < a.len() ==> (#[trigger] a[k]).0@ == b[k].0@ && a[k].1@ == b[k].1@
}

/// Whether `imp` is what `raw`, written in a file of `directory`, says.
pub open spec fn read_as(raw: RawImport, directory: Seq<char>, imp: Import) -> bool {
    &&& raw.source matches Some(path) && {
        &&& if path@.len() > 0 && path@[0] == '@' {
            imp.target is None
        } else {
            imp.target matches Some(t) && t@ == resolve(directory, path@)
        }
        &&& match raw.items {
            RawItems::Bare => imp.items matches Items::Module(b) && b@ == bare_binding(
                raw.new_name,
                path@,
            ),
            RawItems::Wildcard => imp.items is Wildcard,
            RawItems::Named(list) => imp.items matches Items::Named(m) && same_pairs(m@, list@),
        }
    }
}

/// Whether `imps` are what `raws` say, one for one.
pub open spec fn read_all(raws: Seq<RawImport>, directory: Seq<char>, imps: Seq<Import>) -> bool {
    raws.len() == imps.len() && forall|k: int|
        0 <= k < raws.len() ==> read_as(raws[k], directory, #[trigger] imps[k])
}

fn copy_string(s: &String) -> (r: String)
    ensures
        r == *s,
{
    s.clone()
}

fn copy_pairs(list: &Vec<(String, String)>) -> (r: Vec<(String, String)>)
    ensures
        same_pairs(r@, list@),
{
    let mut out: Vec<(String, String)> = Vec::new();
    let mut i: usize = 0;
    while i < list.len()
        invariant
            i <= list@.len(),
            out@.len() == i,
            forall|k: int| 0 <= k < i ==> (#[trigger] out@[k]).0@ == list@[k].0@ && out@[k].1@ == list@[k].1@,
        decreases list@.len() - i,
    {
        out.push((copy_string(&list[i].0), copy_string(&list[i].1)));
        i = i + 1;
    }
    out
}

/// What a string-sourced `import` says, read from a file in `directory`.
fn import_from(raw: &RawImport, directory: &Vec<char>) -> (r: Import)
    requires
        raw.source is Some,
    ensures
        read_as(*raw, directory@, r),
{
    let path = match &raw.source {
        Some(p) => chars_of(p.as_str()),
        None => Vec::new(),
    };
    let target = if path.len() > 0 && path[0] == '@' {
        None
    } else {
        Some(string_of(resolve_exec(directory, &path).as_slice()))
    };
    let items = match &raw.items {
        RawItems::Bare => {
            let binding = match &raw.new_name {
                Some(n) => copy_string(n),
                None => match file_stem_exec(&path) {
                    Some(s) => string_of(s.as_slice()),
                    None => String::new(),
                },
            };
            Items::Module(binding)
        },
        RawItems::Wildcard => Items::Wildcard,
        RawItems::Named(list) => Items::Named(copy_pairs(list)),
    };
    Import { target, items }
}

fn collect_imports(cs: &Vec<Cst>, directory: &Vec<char>, out: &mut Vec<Import>)
    ensures
        final(out)@.len() >= old(out)@.len(),
        final(out)@.subrange(0, old(out)@.len() as int) == old(out)@,
        read_all(
            forest_imports(cs@),
            directory@,
            final(out)@.subrange(old(out)@.len() as int, final(out)@.len() as int),
        ),
    decreases cs@, 0nat,
{
    let ghost start = out@;
    let mut i: usize = 0;
    assert(out@.subrange(0, start.len() as int) =~= start);
    assert(cs@.subrange(0, 0) =~= Seq::<Cst>::empty());
    while i < cs.len()
        invariant
            i <= cs@.len(),
            out@.len() >= start.len(),
            out@.subrange(0, start.len() as int) == start,
            read_all(
                forest_imports(cs@.subrange(0, i as int)),
                directory@,
                out@.subrange(start.len() as int, out@.len() as int),
            ),
        decreases cs@.len() - i,
    {
        let ghost mid = out@;
        proof {
            assert(decreases_to!(cs@ => cs@[i as int]));
        }
        collect_tree(&cs[i], directory, out);
        let ghost pre = cs@.subrange(0, i as int + 1);
        assert(pre.drop_last() =~= cs@.subrange(0, i as int));
        assert(pre.last() == cs@[i as int]);
        assert(out@.subrange(0, mid.len() as int) == mid);
        assert(out@.subrange(0, start.len() as int) =~= mid.subrange(0, start.len() as int));
        let ghost a = mid.subrange(start.len() as int, mid.len() as int);
        let ghost b = out@.subrange(mid.len() as int, out@.len() as int);
        assert(out@.subrange(start.len() as int, out@.len() as int) =~= a + b);
        assert(out@.subrange(0, mid.len() as int) =~= mid);
        i = i + 1;
    }
    assert(cs@.subrange(0, cs@.len() as int) =~= cs@);
}

fn collect_tree(c: &Cst, directory: &Vec<char>, out: &mut Vec<Import>)
    ensures
        final(out)@.len() >= old(out)@.len(),
        final(out)@.subrange(0, old(out)@.len() as int) == old(out)@,
        read_all(
            tree_imports(*c),
            directory@,
            final(out)@.subrange(old(out)@.len() as int, final(out)@.len() as int),
        ),
    decreases *c, 1nat,
{
    let ghost start = out@;
    match &c.import {
        Some(raw) => {
            if raw.source.is_some() {
                out.push(import_from(raw, directory));
            }
        },
        None => {},
    }
    let ghost mid = out@;
    assert(mid.subrange(0, start.len() as int) =~= start);
    collect_imports(&c.children, directory, out);
    assert(out@.subrange(0, mid.len() as int) == mid);
    assert(out@.subrange(0, start.len() as int) =~= mid.subrange(0, start.len() as int));
    assert(out@.subrange(start.len() as int, out@.len() as int) =~= mid.subrange(
        start.len() as int,
        mid.len() as int,
    ) + out@.subrange(mid.len() as int, out@.len() as int));
    assert(out@.subrange(0, mid.len() as int) =~= mid);
}

fn collect_bindings(cs: &Vec<Cst>, out: &mut Vec<String>)
    ensures
        final(out)@ == old(out)@ + forest_bindings(cs@),
    decreases cs@, 0nat,
{
    let ghost start = out@;
    let mut i: usize = 0;
    assert(cs@.subrange(0, 0) =~= Seq::<Cst>::empty());
    assert(start + Seq::<String>::empty() =~= start);
    while i < cs.len()
        invariant
            i <= cs@.len(),
            out@ == start + forest_bindings(cs@.subrange(0, i as int)),
        decreases cs@.len() - i,
    {
        proof {
            assert(decreases_to!(cs@ => cs@[i as int]));
        }
        let ghost mid = out@;
        let c = &cs[i];
        let mut k: usize = 0;
        while k < c.bindings.len()
            invariant
                k <= c.bindings@.len(),
                out@ == mid + c.bindings@.subrange(0, k as int),
            decreases c.bindings@.len() - k,
        {
            out.push(copy_string(&c.bindings[k]));
            assert(out@ =~= mid + c.bindings@.subrange(0, k as int + 1));
            k = k + 1;
        }
        assert(c.bindings@.subrange(0, c.bindings@.len() as int) =~= c.bindings@);
        proof {
            assert(decreases_to!(cs@ => cs@[i as int].children@));
        }
        collect_bindings(&c.children, out);
        let ghost pre = cs@.subrange(0, i as int + 1);
        assert(pre.drop_last() =~= cs@.subrange(0, i as int));
        assert(pre.last() == cs@[i as int]);
        assert(forest_bindings(pre) == forest_bindings(cs@.subrange(0, i as int)) + tree_bindings(cs@[i as int]));
        assert(out@ =~= start + forest_bindings(pre));
        i = i + 1;
    }
    assert(cs@.subrange(0, cs@.len() as int) =~= cs@);
}

// -- a package ----------------------------------------------------------------------

/// One file of a package: its path, its imports and the names it binds.
pub struct PackageFile {
    pub path: String,
    pub imports: Vec<Import>,
    pub bindings: Vec<String>,
}

/// The `.typ` files of a package, each under its own path.
pub struct Package {
    pub files: Vec<PackageFile>,
}

/// Where the file at `path` stands among the first `n` files of `files`.
pub open spec fn find(files: Seq<PackageFile>, path: Seq<char>, n: int) -> Option<int>
    decreases n,
{
    if n <= 0 || n > files.len() {
        None
    } else if files[n - 1].path@ == path {
        Some(n - 1)
    } else {
        find(files, path, n - 1)
    }
}

impl Package {
    /// The file at `path`, if the package has one.
    pub open spec fn index_of(self, path: Seq<char>) -> Option<int> {
        find(self.files@, path, self.files@.len() as int)
    }

    /// The paths of the files, in order.
    pub open spec fn paths(self) -> Seq<Seq<char>> {
        Seq::new(self.files@.len(), |k: int| self.files@[k].path@)
    }

    /// No path names two files.
    pub open spec fn wf(self) -> bool {
        self.paths().no_duplicates()
    }

    /// Whether the file at `path` binds `name`.
    pub open spec fn defines(self, path: Seq<char>, name: Seq<char>) -> bool {
        match self.index_of(path) {
            Some(i) => self.binds_at(i, name),
            None => false,
        }
    }

    /// Whether the `i`-th file binds `name`.
    pub open spec fn binds_at(self, i: int, name: Seq<char>) -> bool {
        exists|j: int|
            0 <= j < self.files@[i].bindings@.len() && (#[trigger] self.files@[i].bindings@[j])@ == name
    }
}

proof fn lemma_find(files: Seq<PackageFile>, path: Seq<char>, n: int)
    requires
        0 <= n <= files.len(),
    ensures
        find(files, path, n) matches Some(i) ==> 0 <= i < n && files[i].path@ == path,
        find(files, path, n) is None ==> forall|k: int| 0 <= k < n ==> files[k].path@ != path,
    decreases n,
{
    if n > 0 {
        lemma_find(files, path, n - 1);
    }
}

fn find_in(files: &Vec<PackageFile>, path: &str) -> (r: Option<usize>)
    ensures
        match r {
            Some(i) => find(files@, path@, files@.len() as int) == Some(i as int) && i < files@.len()
                && files@[i as int].path@ == path@,
            None => find(files@, path@, files@.len() as int) is None,
        },
{
    proof {
        lemma_find(files@, path@, files@.len() as int);
    }
    let mut n = files.len();
    while n > 0
        invariant
            n <= files@.len(),
            find(files@, path@, files@.len() as int) == find(files@, path@, n as int),
        decreases n,
    {
        if str_eq(files[n - 1].path.as_str(), path) {
            return Some(n - 1);
        }
        n = n - 1;
    }
    None
}

fn find_file(pkg: &Package, path: &str) -> (r: Option<usize>)
    ensures
        match r {
            Some(i) => pkg.index_of(path@) == Some(i as int) && i < pkg.files@.len()
                && pkg.files@[i as int].path@ == path@,
            None => pkg.index_of(path@) is None,
        },
{
    find_in(&pkg.files, path)
}

proof fn lemma_find_push(s: Seq<PackageFile>, x: PackageFile, p: Seq<char>, n: int)
    requires
        0 <= n <= s.len(),
    ensures
        find(s.push(x), p, n) == find(s, p, n),
    decreases n,
{
    if n > 0 {
        lemma_find_push(s, x, p, n - 1);
    }
}

/// Whether `f` is what the source text `source` says: the names its
/// `let`s bind, in order, and its imports, each read in the file's
/// directory.
pub open spec fn file_read(f: PackageFile, source: Seq<char>) -> bool {
    &&& f.bindings@ == forest_bindings(crate::typ::syntax::markup_tree(source).children@)
    &&& read_all(tree_imports(crate::typ::syntax::markup_tree(source)), parent(f.path@), f.imports@)
}

/// Whether `f` was read from the first of the first `n` sources at its
/// path.
pub open spec fn read_from(sources: Seq<(String, String)>, f: PackageFile, n: int) -> bool {
    exists|j: int|
        0 <= j < n && normal((#[trigger] sources[j]).0@) == f.path@ && file_read(f, sources[j].1@)
            && forall|i: int| 0 <= i < j ==> normal((#[trigger] sources[i]).0@) != f.path@
}

/// Whether `pkg` is the package the sources give: no path twice, each
/// file read from the first source at its path, and every source's path
/// among the files.
pub open spec fn read_of(sources: Seq<(String, String)>, pkg: Package) -> bool {
    &&& pkg.wf()
    &&& forall|k: int| 0 <= k < pkg.files@.len() ==> read_from(sources, #[trigger] pkg.files@[k], sources.len() as int)
    &&& forall|j: int| 0 <= j < sources.len() ==> (#[trigger] pkg.index_of(normal(sources[j].0@))) is Some
}

/// The files of a package, read from each file's path and source text; a
/// path given twice is read once, from its first source.
pub fn read_package(sources: &Vec<(String, String)>) -> (r: Package)
    ensures
        read_of(sources@, r),
        r.wf(),
        forall|k: int| 0 <= k < r.files@.len() ==> read_from(sources@, #[trigger] r.files@[k], sources@.len() as int),
        forall|j: int| 0 <= j < sources@.len() ==> (#[trigger] r.index_of(normal(sources@[j].0@)))
            is Some,
{
    let mut files: Vec<PackageFile> = Vec::new();
    let mut i: usize = 0;
    while i < sources.len()
        invariant
            i <= sources@.len(),
            (Package { files }).wf(),
            forall|k: int| 0 <= k < files@.len() ==> read_from(sources@, #[trigger] files@[k], i as int),
            forall|j: int| 0 <= j < i ==> (#[trigger] (Package { files }).index_of(normal(sources@[j].0@))) is Some,
        decreases sources@.len() - i,
    {
        let path = normalize(&chars_of(sources[i].0.as_str()));
        let path_string = string_of(path.as_slice());
        let ghost pkg = Package { files };
        match find_in(&files, path_string.as_str()) {
            Some(_) => {},
            None => {
                proof {
                    lemma_find(files@, path@, files@.len() as int);
                }
                let root = parse_markup(sources[i].1.as_str());
                let mut imports: Vec<Import> = Vec::new();
                collect_tree(&root, &parent_exec(&path), &mut imports);
                assert(imports@.subrange(0, imports@.len() as int) =~= imports@);
                let mut bindings: Vec<String> = Vec::new();
                collect_bindings(&root.children, &mut bindings);
                assert(bindings@ =~= forest_bindings(root.children@));
                let ghost before = files@;
                files.push(PackageFile { path: path_string, imports, bindings });
                proof {
                    let after = Package { files };
                    assert(after.paths() =~= pkg.paths().push(path@));
                    assert forall|a: int, b: int|
                        0 <= a < b < after.paths().len() implies after.paths()[a] != after.paths()[b] by {
                        if b == after.paths().len() - 1 {
                            assert(before[a].path@ != path@);
                        }
                    }
                    assert forall|j: int| 0 <= j < i + 1 implies (#[trigger] after.index_of(normal(sources@[j].0@))) is Some by {
                        if j < i {
                            let w = normal(sources@[j].0@);
                            assert(pkg.index_of(w) is Some);
                            lemma_find_push(before, files@.last(), w, before.len() as int);
                            assert(files@ == before.push(files@.last()));
                            if files@.last().path@ != w {
                                assert(find(files@, w, files@.len() as int) == find(files@, w, before.len() as int));
                            }
                        } else {
                            assert(files@[files@.len() - 1].path@ == path@);
                        }
                    }
                    assert forall|k: int| 0 <= k < files@.len() implies read_from(sources@, #[trigger] files@[k], i + 1) by {
                        if k < before.len() {
                            assert(files@[k] == before[k]);
                            assert(read_from(sources@, before[k], i as int));
                        } else {
                            let f = files@[k];
                            assert(normal(sources@[i as int].0@) == f.path@);
                            assert(file_read(f, sources@[i as int].1@));
                            assert forall|j: int| 0 <= j < i implies normal((#[trigger] sources@[j]).0@) != f.path@ by {
                                let w = normal(sources@[j].0@);
                                assert(pkg.index_of(w) is Some);
                                lemma_find(before, w, before.len() as int);
                            }
                        }
                    }
                }
            },
        }
        proof {
            assert forall|j: int| 0 <= j < i + 1 implies (#[trigger] (Package { files }).index_of(normal(sources@[j].0@))) is Some by {
                if j == i {
                    lemma_find(files@, normal(sources@[j].0@), files@.len() as int);
                }
            }
        }
        i = i + 1;
    }
    Package { files }
}

// -- exports ------------------------------------------------------------------------

/// A definition (the file, and the name it is defined under) and the path
/// a user imports it under.
pub struct Export {
    pub file: String,
    pub name: String,
    pub public: String,
}

/// Every documented binding a package exports, each definition once, with
/// the path a user imports it under.
///
/// `mypkg/src/component/image.typ`'s `image`, re-exported by `lib.typ` as
/// `#import "component/image.typ": image`, maps to `image`; behind
/// `#import "layout/image.typ" as layout` it maps to `layout.image`.
pub struct Exports {
    entries: Vec<Export>,
}

/// No definition occurs twice.
pub open spec fn distinct_keys(es: Seq<Export>) -> bool {
    forall|a: int, b: int|
        0 <= a < b < es.len() ==> !((#[trigger] es[a]).file@ == (#[trigger] es[b]).file@ && es[a].name@
            == es[b].name@)
}

/// Every definition is one the package has.
pub open spec fn all_defined(pkg: Package, es: Seq<Export>) -> bool {
    forall|k: int| 0 <= k < es.len() ==> pkg.defines((#[trigger] es[k]).file@, es[k].name@)
}

/// The entry for a definition among `es[..n]`.
pub open spec fn key_at(es: Seq<Export>, file: Seq<char>, name: Seq<char>, n: int) -> Option<int>
    decreases n,
{
    if n <= 0 || n > es.len() {
        None
    } else if es[n - 1].file@ == file && es[n - 1].name@ == name {
        Some(n - 1)
    } else {
        key_at(es, file, name, n - 1)
    }
}

proof fn lemma_key_at(es: Seq<Export>, file: Seq<char>, name: Seq<char>, n: int)
    requires
        0 <= n <= es.len(),
    ensures
        key_at(es, file, name, n) matches Some(i) ==> 0 <= i < n && es[i].file@ == file
            && es[i].name@ == name,
        key_at(es, file, name, n) is None ==> forall|k: int|
            0 <= k < n ==> !(es[k].file@ == file && es[k].name@ == name),
    decreases n,
{
    if n > 0 {
        lemma_key_at(es, file, name, n - 1);
    }
}

impl Exports {
    /// The entries, one per definition.
    pub closed spec fn entries(self) -> Seq<Export> {
        self.entries@
    }

    /// The path a user imports the definition under, as a map.
    pub closed spec fn lookup(self, file: Seq<char>, name: Seq<char>) -> Option<Seq<char>> {
        match key_at(self.entries@, file, name, self.entries@.len() as int) {
            Some(i) => Some(self.entries@[i].public@),
            None => None,
        }
    }

    /// How many definitions are exported.
    pub fn len(&self) -> (r: usize)
        ensures
            r == self.entries().len(),
    {
        self.entries.len()
    }

    /// The public path of a definition: `name` as `file` defines it.
    pub fn get(&self, file: &str, name: &str) -> (r: Option<&String>)
        ensures
            match r {
                Some(p) => self.lookup(file@, name@) == Some(p@),
                None => self.lookup(file@, name@) is None,
            },
            r is Some <==> has_key(self.entries(), file@, name@),
    {
        let mut n = self.entries.len();
        while n > 0
            invariant
                n <= self.entries@.len(),
                key_at(self.entries@, file@, name@, self.entries@.len() as int) == key_at(
                    self.entries@,
                    file@,
                    name@,
                    n as int,
                ),
            decreases n,
        {
            let e = &self.entries[n - 1];
            if str_eq(e.file.as_str(), file) && str_eq(e.name.as_str(), name) {
                return Some(&e.public);
            }
            n = n - 1;
        }
        None
    }

    /// Every public path, in the order the definitions were first reached.
    pub fn public_names(&self) -> (r: Vec<String>)
        ensures
            r@.len() == self.entries().len(),
            forall|k: int| 0 <= k < r@.len() ==> (#[trigger] r@[k])@ == self.entries()[k].public@,
    {
        let mut out: Vec<String> = Vec::new();
        let mut i: usize = 0;
        while i < self.entries.len()
            invariant
                i <= self.entries@.len(),
                out@.len() == i,
                forall|k: int| 0 <= k < i ==> (#[trigger] out@[k])@ == self.entries@[k].public@,
            decreases self.entries@.len() - i,
        {
            out.push(copy_string(&self.entries[i].public));
            i = i + 1;
        }
        out
    }
}

/// Whether `es` holds an entry for `file`'s `name`.
pub open spec fn has_key(es: Seq<Export>, file: Seq<char>, name: Seq<char>) -> bool {
    key_at(es, file, name, es.len() as int) is Some
}

proof fn lemma_key_found(es: Seq<Export>, k: int, n: int)
    requires
        0 <= k < n <= es.len(),
    ensures
        key_at(es, es[k].file@, es[k].name@, n) is Some,
    decreases n,
{
    if n - 1 != k && !(es[n - 1].file@ == es[k].file@ && es[n - 1].name@ == es[k].name@) {
        lemma_key_found(es, k, n - 1);
    }
}

/// Whether every definition `a` holds an entry for, `b` holds one for too.
pub open spec fn keys_kept(a: Seq<Export>, b: Seq<Export>) -> bool {
    forall|f: Seq<char>, g: Seq<char>| #[trigger] has_key(a, f, g) ==> has_key(b, f, g)
}

/// The file the `k`-th import of the `i`-th file brings in whole: a module
/// or wildcard import of a file the package has.
pub open spec fn wholesale(pkg: Package, i: int, k: int) -> Option<int> {
    let import = pkg.files@[i].imports@[k];
    match import.target {
        Some(t) => match import.items {
            Items::Named(_) => None,
            _ => pkg.index_of(t@),
        },
        None => None,
    }
}

/// Whether `es` holds every binding the `k`-th import of the `i`-th file
/// reaches directly: every binding of a file it brings in whole, and every
/// name it imports from a file that binds it.
pub open spec fn covered(pkg: Package, i: int, k: int, es: Seq<Export>) -> bool {
    let import = pkg.files@[i].imports@[k];
    &&& wholesale(pkg, i, k) matches Some(t) ==> forall|j: int|
        0 <= j < pkg.files@[t].bindings@.len() ==> has_key(
            es,
            pkg.files@[t].path@,
            #[trigger] pkg.files@[t].bindings@[j]@,
        )
    &&& (import.target matches Some(tp) && import.items matches Items::Named(list)) ==> match pkg.index_of(
        import.target->0@,
    ) {
        Some(t) => forall|j: int|
            0 <= j < (import.items->Named_0)@.len() && pkg.binds_at(t, (import.items->Named_0)@[j].0@)
                ==> has_key(es, pkg.files@[t].path@, (#[trigger] (import.items->Named_0)@[j]).0@),
        None => true,
    }
}

/// Whether `es` holds every binding the imports of the file at `file`
/// reach directly.
pub open spec fn file_covered(pkg: Package, file: Seq<char>, es: Seq<Export>) -> bool {
    match pkg.index_of(file) {
        Some(i) => forall|k: int| 0 <= k < pkg.files@[i].imports@.len() ==> #[trigger] covered(pkg, i, k, es),
        None => true,
    }
}

proof fn lemma_covered_kept(pkg: Package, i: int, k: int, a: Seq<Export>, b: Seq<Export>)
    requires
        covered(pkg, i, k, a),
        keys_kept(a, b),
    ensures
        covered(pkg, i, k, b),
{
}

/// Whether `file`'s `name` is reached as `public` through the `k`-th
/// import of the `i`-th file, whose own names stand behind `prefix`, the
/// files in `seen` being those the chain of imports has passed through:
/// a module import adds its name and a dot to the prefix, a wildcard keeps
/// it, and a named import gives the name it binds.
pub open spec fn import_reaches(
    pkg: Package,
    seen: Seq<Seq<char>>,
    i: int,
    k: int,
    prefix: Seq<char>,
    file: Seq<char>,
    name: Seq<char>,
    public: Seq<char>,
) -> bool
    decreases pkg.files@.len() - seen.len(), 1nat,
{
    let import = pkg.files@[i].imports@[k];
    match import.target {
        None => false,
        Some(tp) => match pkg.index_of(tp@) {
            None => false,
            Some(t) => match import.items {
                Items::Module(b) => {
                    let inner = prefix + b@ + seq!['.'];
                    (tp@ == file && pkg.binds_at(t, name) && public == inner + name) || reaches(
                        pkg,
                        seen,
                        tp@,
                        inner,
                        file,
                        name,
                        public,
                    )
                },
                Items::Wildcard => (tp@ == file && pkg.binds_at(t, name) && public == prefix + name)
                    || reaches(pkg, seen, tp@, prefix, file, name, public),
                Items::Named(list) => exists|j: int|
                    0 <= j < list@.len() && public == prefix + (#[trigger] list@[j]).1@ && pkg.defines(file, name)
                        && (pkg.binds_at(t, list@[j].0@) ==> file == tp@ && name == list@[j].0@),
            },
        },
    }
}

/// The `k`-th import taken as a step of a chain of imports.
pub open spec fn reach_step(k: int) -> bool {
    k >= 0
}

/// Whether a user importing the file at `from`, its names behind
/// `prefix`, reaches `file`'s `name` as `public` through a chain of
/// imports that does not pass through the files in `seen`.
pub open spec fn reaches(
    pkg: Package,
    seen: Seq<Seq<char>>,
    from: Seq<char>,
    prefix: Seq<char>,
    file: Seq<char>,
    name: Seq<char>,
    public: Seq<char>,
) -> bool
    decreases pkg.files@.len() - seen.len(), 0nat,
{
    if seen.len() >= pkg.files@.len() {
        false
    } else {
        match pkg.index_of(from) {
            Some(i) => exists|k: int|
                0 <= k < pkg.files@[i].imports@.len() && #[trigger] reach_step(k) && import_reaches(
                    pkg,
                    seen.push(from),
                    i,
                    k,
                    prefix,
                    file,
                    name,
                    public,
                ),
            None => false,
        }
    }
}

/// Whether `e` was among `before` or is reached from the file at `from`.
pub open spec fn kept_or_reached(
    before: Seq<Export>,
    pkg: Package,
    seen: Seq<Seq<char>>,
    from: Seq<char>,
    prefix: Seq<char>,
    e: Export,
) -> bool {
    before.contains(e) || reaches(pkg, seen, from, prefix, e.file@, e.name@, e.public@)
}

/// The paths a list of strings names.
pub open spec fn string_views(v: Seq<String>) -> Seq<Seq<char>> {
    v.map_values(|s: String| s@)
}

// -- what the walk records, as values ---------------------------------------------

/// An export as values: the defining file, the name, the public path.
pub open spec fn export_views(es: Seq<Export>) -> Seq<(Seq<char>, Seq<char>, Seq<char>)> {
    es.map_values(|e: Export| (e.file@, e.name@, e.public@))
}

/// Where the entry for `file`'s `name` stands among `es[..n]`, searched
/// from the end.
pub open spec fn key_index(es: Seq<(Seq<char>, Seq<char>, Seq<char>)>, file: Seq<char>, name: Seq<char>, n: int) -> Option<int>
    decreases n,
{
    if n <= 0 || n > es.len() {
        None
    } else if es[n - 1].0 == file && es[n - 1].1 == name {
        Some(n - 1)
    } else {
        key_index(es, file, name, n - 1)
    }
}

/// `es` with `file`'s `name` recorded as public under `public`: its entry
/// replaced where it has one, else added at the end.
pub open spec fn recorded(
    es: Seq<(Seq<char>, Seq<char>, Seq<char>)>,
    file: Seq<char>,
    name: Seq<char>,
    public: Seq<char>,
) -> Seq<(Seq<char>, Seq<char>, Seq<char>)> {
    match key_index(es, file, name, es.len() as int) {
        Some(m) => es.update(m, (file, name, public)),
        None => es.push((file, name, public)),
    }
}

/// How many more files a chain of imports can pass through once it has
/// passed through those in `seen`.
pub open spec fn room(pkg: Package, seen: Seq<Seq<char>>) -> nat {
    if seen.len() >= pkg.files@.len() {
        0
    } else {
        (pkg.files@.len() - seen.len()) as nat
    }
}

/// Where `name` is defined, looked for from the file at `file` once the
/// files in `seen` were searched: the file itself if it binds the name,
/// else what its imports lead to, in order, each file searched once. Gives
/// the definition found, if any, and the files searched by then.
pub open spec fn define_spec(pkg: Package, file: Seq<char>, name: Seq<char>, seen: Seq<Seq<char>>) -> (
    Option<(Seq<char>, Seq<char>)>,
    Seq<Seq<char>>,
)
    decreases room(pkg, seen), 0nat, 0int,
{
    if seen.contains(file) || seen.len() >= pkg.files@.len() {
        (None, seen)
    } else {
        match pkg.index_of(file) {
            None => (None, seen),
            Some(i) => if pkg.binds_at(i, name) {
                (Some((file, name)), seen.push(file))
            } else {
                define_from(pkg, i, 0, name, seen.push(file))
            },
        }
    }
}

/// Where `name` is defined, looked for through the imports of the `i`-th
/// file from the `k`-th on, once the files in `seen` were searched.
pub open spec fn define_from(pkg: Package, i: int, k: int, name: Seq<char>, seen: Seq<Seq<char>>) -> (
    Option<(Seq<char>, Seq<char>)>,
    Seq<Seq<char>>,
)
    decreases room(pkg, seen), 1nat, pkg.files@[i].imports@.len() - k,
{
    if !(0 <= i < pkg.files@.len()) || k < 0 || k >= pkg.files@[i].imports@.len() {
        (None, seen)
    } else {
        let import = pkg.files@[i].imports@[k];
        match import.target {
            None => define_from(pkg, i, k + 1, name, seen),
            Some(tp) => match source_name_spec(import.items, name) {
                None => define_from(pkg, i, k + 1, name, seen),
                Some(next) => {
                    let found = define_spec(pkg, tp@, next, seen);
                    if found.0 is Some || found.1.len() < seen.len() {
                        found
                    } else {
                        define_from(pkg, i, k + 1, name, found.1)
                    }
                },
            },
        }
    }
}

/// `es` with the first `n` names the `t`-th file binds recorded under
/// `prefix`.
pub open spec fn all_recorded(
    pkg: Package,
    t: int,
    prefix: Seq<char>,
    es: Seq<(Seq<char>, Seq<char>, Seq<char>)>,
    n: int,
) -> Seq<(Seq<char>, Seq<char>, Seq<char>)>
    decreases n,
{
    if n <= 0 || n > pkg.files@[t].bindings@.len() {
        es
    } else {
        let b = pkg.files@[t].bindings@[n - 1]@;
        recorded(all_recorded(pkg, t, prefix, es, n - 1), pkg.files@[t].path@, b, prefix + b)
    }
}

/// `es` with the first `n` names of a named import of the file at `file`
/// recorded where they are defined, each under `prefix` and the name it is
/// bound as.
pub open spec fn named_recorded(
    pkg: Package,
    file: Seq<char>,
    list: Seq<(String, String)>,
    prefix: Seq<char>,
    es: Seq<(Seq<char>, Seq<char>, Seq<char>)>,
    n: int,
) -> Seq<(Seq<char>, Seq<char>, Seq<char>)>
    decreases n,
{
    if n <= 0 || n > list.len() {
        es
    } else {
        let prev = named_recorded(pkg, file, list, prefix, es, n - 1);
        match define_spec(pkg, file, list[n - 1].0@, seq![]).0 {
            Some((df, dn)) => recorded(prev, df, dn, prefix + list[n - 1].1@),
            None => prev,
        }
    }
}

/// What the walk from the file at `file`, its names behind `prefix`, with
/// the files in `visiting` on the current chain of imports, makes of the
/// entries `es`.
pub open spec fn walk_spec(
    pkg: Package,
    visiting: Seq<Seq<char>>,
    file: Seq<char>,
    prefix: Seq<char>,
    es: Seq<(Seq<char>, Seq<char>, Seq<char>)>,
) -> Seq<(Seq<char>, Seq<char>, Seq<char>)>
    decreases room(pkg, visiting), 0nat, 0int, 0nat,
{
    if visiting.contains(file) || visiting.len() >= pkg.files@.len() {
        es
    } else {
        match pkg.index_of(file) {
            None => es,
            Some(i) => walk_from(pkg, visiting.push(file), i, 0, prefix, es),
        }
    }
}

/// What the `k`-th import of the `i`-th file does to the entries `es`:
/// a module import records every name of the file it brings in behind its
/// name and a dot and walks on into that file, a wildcard does the same
/// with no name added, and a named import records each name where it is
/// defined, under the name it is bound as.
pub open spec fn import_step(
    pkg: Package,
    visiting: Seq<Seq<char>>,
    i: int,
    k: int,
    prefix: Seq<char>,
    es: Seq<(Seq<char>, Seq<char>, Seq<char>)>,
) -> Seq<(Seq<char>, Seq<char>, Seq<char>)>
    decreases room(pkg, visiting), 1nat, pkg.files@[i].imports@.len() - k, 1nat,
{
    let import = pkg.files@[i].imports@[k];
    match import.target {
        None => es,
        Some(tp) => match pkg.index_of(tp@) {
            None => es,
            Some(t) => match import.items {
                Items::Module(b) => {
                    let inner = prefix + b@ + seq!['.'];
                    walk_spec(
                        pkg,
                        visiting,
                        tp@,
                        inner,
                        all_recorded(pkg, t, inner, es, pkg.files@[t].bindings@.len() as int),
                    )
                },
                Items::Wildcard => walk_spec(
                    pkg,
                    visiting,
                    tp@,
                    prefix,
                    all_recorded(pkg, t, prefix, es, pkg.files@[t].bindings@.len() as int),
                ),
                Items::Named(list) => named_recorded(pkg, tp@, list@, prefix, es, list@.len() as int),
            },
        },
    }
}

/// What the imports of the `i`-th file from the `k`-th on do to `es`.
pub open spec fn walk_from(
    pkg: Package,
    visiting: Seq<Seq<char>>,
    i: int,
    k: int,
    prefix: Seq<char>,
    es: Seq<(Seq<char>, Seq<char>, Seq<char>)>,
) -> Seq<(Seq<char>, Seq<char>, Seq<char>)>
    decreases room(pkg, visiting), 1nat, pkg.files@[i].imports@.len() - k, 2nat,
{
    if !(0 <= i < pkg.files@.len()) || k < 0 || k >= pkg.files@[i].imports@.len() {
        es
    } else {
        walk_from(pkg, visiting, i, k + 1, prefix, import_step(pkg, visiting, i, k, prefix, es))
    }
}

proof fn lemma_key_index(es: Seq<Export>, file: Seq<char>, name: Seq<char>, n: int)
    requires
        0 <= n <= es.len(),
    ensures
        key_index(export_views(es), file, name, n) == key_at(es, file, name, n),
    decreases n,
{
    if n > 0 {
        lemma_key_index(es, file, name, n - 1);
    }
}

/// Record that `file`'s `name` is public as `public`, in place of what was
/// recorded for it before.
fn record(es: &mut Vec<Export>, file: &str, name: &str, public: Vec<char>)
    requires
        distinct_keys(old(es)@),
    ensures
        distinct_keys(final(es)@),
        forall|k: int| 0 <= k < final(es)@.len() ==> ((#[trigger] final(es)@[k]).file@ == file@
            && final(es)@[k].name@ == name@) || has_key(old(es)@, final(es)@[k].file@, final(es)@[k].name@),
        key_at(final(es)@, file@, name@, final(es)@.len() as int) matches Some(i)
            && final(es)@[i].public@ == public@,
        keys_kept(old(es)@, final(es)@),
        forall|k: int|
            0 <= k < final(es)@.len() ==> ((#[trigger] final(es)@[k]).file@ == file@ && final(es)@[k].name@
                == name@ && final(es)@[k].public@ == public@) || old(es)@.contains(final(es)@[k]),
        export_views(final(es)@) == recorded(export_views(old(es)@), file@, name@, public@),
{
    let mut n = es.len();
    while n > 0
        invariant
            n <= es@.len(),
            es@ == old(es)@,
            distinct_keys(es@),
            key_at(es@, file@, name@, es@.len() as int) == key_at(es@, file@, name@, n as int),
        decreases n,
    {
        if str_eq(es[n - 1].file.as_str(), file) && str_eq(es[n - 1].name.as_str(), name) {
            let ghost before = es@;
            let ghost m = n - 1;
            assert(before[m as int].file@ == file@ && before[m as int].name@ == name@);
            let entry = Export { file: owned(file), name: owned(name), public: string_of(public.as_slice()) };
            es.set(n - 1, entry);
            proof {
                lemma_key_index(before, file@, name@, before.len() as int);
                assert(key_at(before, file@, name@, n as int) == Some(m as int));
                assert(export_views(es@) =~= export_views(before).update(m as int, (file@, name@, public@)));
                assert forall|a: int, b: int| 0 <= a < b < es@.len() implies !((#[trigger] es@[a]).file@
                    == (#[trigger] es@[b]).file@ && es@[a].name@ == es@[b].name@) by {
                    assert(es@[a].file@ == before[a].file@ && es@[a].name@ == before[a].name@);
                    assert(es@[b].file@ == before[b].file@ && es@[b].name@ == before[b].name@);
                    assert(!((before[a]).file@ == (before[b]).file@ && before[a].name@ == before[b].name@));
                }
                assert forall|k: int| 0 <= k < es@.len() implies ((#[trigger] es@[k]).file@ == file@
                    && es@[k].name@ == name@) || has_key(before, es@[k].file@, es@[k].name@) by {
                    if k != m {
                        assert(before[k] == es@[k]);
                        lemma_key_found(before, k, before.len() as int);
                    }
                }
                lemma_key_at(before, file@, name@, before.len() as int);
                lemma_key_at(es@, file@, name@, es@.len() as int);
                let i = key_at(es@, file@, name@, es@.len() as int);
                if i != Some(m as int) {
                    if i is Some {
                        let i = i->0;
                        assert(before[i].file@ == file@ && before[i].name@ == name@);
                        if i < m {
                            assert(!((before[i]).file@ == (before[m as int]).file@ && before[i].name@ == before[m as int].name@));
                        } else {
                            assert(!((before[m as int]).file@ == (before[i]).file@ && before[m as int].name@ == before[i].name@));
                        }
                    } else {
                        assert(es@[m as int].file@ == file@ && es@[m as int].name@ == name@);
                    }
                }
                assert forall|f: Seq<char>, g: Seq<char>| #[trigger] has_key(before, f, g) implies has_key(es@, f, g) by {
                    lemma_key_at(before, f, g, before.len() as int);
                    let k = key_at(before, f, g, before.len() as int)->0;
                    assert(es@[k].file@ == f && es@[k].name@ == g);
                    lemma_key_found(es@, k, es@.len() as int);
                }
                assert forall|k: int| 0 <= k < es@.len() implies ((#[trigger] es@[k]).file@ == file@ && es@[k].name@
                    == name@ && es@[k].public@ == public@) || before.contains(es@[k]) by {
                    if k != m {
                        assert(es@[k] == before[k]);
                    }
                }
            }
            return;
        }
        n = n - 1;
    }
    proof {
        lemma_key_at(es@, file@, name@, es@.len() as int);
    }
    let ghost before = es@;
    es.push(Export { file: owned(file), name: owned(name), public: string_of(public.as_slice()) });
    proof {
        lemma_key_index(before, file@, name@, before.len() as int);
        assert(export_views(es@) =~= export_views(before).push((file@, name@, public@)));
        assert forall|a: int, b: int| 0 <= a < b < es@.len() implies !((#[trigger] es@[a]).file@
            == (#[trigger] es@[b]).file@ && es@[a].name@ == es@[b].name@) by {
            assert(es@[a] == before[a]);
            if b < before.len() {
                assert(es@[b] == before[b]);
                assert(!((before[a]).file@ == (before[b]).file@ && before[a].name@ == before[b].name@));
            } else {
                assert(es@[b].file@ == file@ && es@[b].name@ == name@);
                assert(!(before[a].file@ == file@ && before[a].name@ == name@));
            }
        }
        assert forall|k: int| 0 <= k < es@.len() implies ((#[trigger] es@[k]).file@ == file@
            && es@[k].name@ == name@) || has_key(before, es@[k].file@, es@[k].name@) by {
            if k < before.len() {
                assert(before[k] == es@[k]);
                lemma_key_found(before, k, before.len() as int);
            }
        }
        assert(key_at(es@, file@, name@, es@.len() as int) == Some((es@.len() - 1) as int));
        assert forall|f: Seq<char>, g: Seq<char>| #[trigger] has_key(before, f, g) implies has_key(es@, f, g) by {
            lemma_key_at(before, f, g, before.len() as int);
            let k = key_at(before, f, g, before.len() as int)->0;
            assert(es@[k] == before[k]);
            lemma_key_found(es@, k, es@.len() as int);
        }
        assert forall|k: int| 0 <= k < es@.len() implies ((#[trigger] es@[k]).file@ == file@ && es@[k].name@
            == name@ && es@[k].public@ == public@) || before.contains(es@[k]) by {
            if k < before.len() {
                assert(es@[k] == before[k]);
            }
        }
    }
}

/// The walk's state: what it has recorded, and the files on the current
/// path of imports, so that a cycle terminates.
struct Walker {
    exports: Vec<Export>,
    visiting: Vec<String>,
}

/// Whether `seen` names files of the package, none twice.
pub open spec fn files_once(pkg: Package, seen: Seq<String>) -> bool {
    &&& forall|a: int, b: int| 0 <= a < b < seen.len() ==> (#[trigger] seen[a])@ != (#[trigger] seen[b])@
    &&& forall|k: int| 0 <= k < seen.len() ==> (#[trigger] pkg.index_of(seen[k]@)) is Some
}

impl Walker {
    spec fn ok(self, pkg: Package) -> bool {
        &&& distinct_keys(self.exports@)
        &&& all_defined(pkg, self.exports@)
        &&& files_once(pkg, self.visiting@)
    }
}

/// No more files can be on a path of imports than the package has.
proof fn lemma_files_once_bounded(pkg: Package, seen: Seq<String>)
    requires
        pkg.wf(),
        files_once(pkg, seen),
    ensures
        seen.len() <= pkg.files@.len(),
{
    let views = Seq::new(seen.len(), |k: int| seen[k]@);
    let paths = pkg.paths();
    assert(views.no_duplicates()) by {
        assert forall|a: int, b: int| 0 <= a < views.len() && 0 <= b < views.len() && a != b implies views[a] != views[b] by {
            if a < b {
                assert(seen[a]@ != seen[b]@);
            } else {
                assert(seen[b]@ != seen[a]@);
            }
        }
    }
    assert(views.to_set().subset_of(paths.to_set())) by {
        assert forall|v: Seq<char>| views.to_set().contains(v) implies paths.to_set().contains(v) by {
            let k = choose|k: int| 0 <= k < views.len() && views[k] == v;
            assert(pkg.index_of(seen[k]@) is Some);
            lemma_find(pkg.files@, seen[k]@, pkg.files@.len() as int);
            let i = pkg.index_of(seen[k]@)->0;
            assert(paths[i] == v);
        }
    }
    views.unique_seq_to_set();
    paths.lemma_cardinality_of_set();
    vstd::set_lib::lemma_len_subset(views.to_set(), paths.to_set());
}

fn contains_string(v: &Vec<String>, s: &str) -> (r: bool)
    ensures
        r == exists|k: int| 0 <= k < v@.len() && (#[trigger] v@[k])@ == s@,
{
    let mut i: usize = 0;
    while i < v.len()
        invariant
            i <= v@.len(),
            forall|k: int| 0 <= k < i ==> (#[trigger] v@[k])@ != s@,
        decreases v@.len() - i,
    {
        if str_eq(v[i].as_str(), s) {
            return true;
        }
        i = i + 1;
    }
    false
}

/// Whether the file at `file` binds `name`, read off the package.
fn binds(pkg: &Package, i: usize, name: &str) -> (r: bool)
    requires
        i < pkg.files@.len(),
    ensures
        r == exists|j: int|
            0 <= j < pkg.files@[i as int].bindings@.len()
                && (#[trigger] pkg.files@[i as int].bindings@[j])@ == name@,
{
    contains_string(&pkg.files[i].bindings, name)
}

fn prefixed(prefix: &Vec<char>, name: &str) -> (r: Vec<char>)
    ensures
        r@ == prefix@ + name@,
{
    let mut out = copy_chars(prefix);
    push_str(&mut out, name);
    out
}

/// An entry taken over from a list whose entries were all kept or reached
/// is kept or reached.
proof fn lemma_kept(
    before: Seq<Export>,
    pkg: Package,
    seen: Seq<Seq<char>>,
    from: Seq<char>,
    prefix: Seq<char>,
    prev: Seq<Export>,
    e: Export,
)
    requires
        forall|q: int| 0 <= q < prev.len() ==> #[trigger] kept_or_reached(before, pkg, seen, from, prefix, prev[q]),
        prev.contains(e),
    ensures
        kept_or_reached(before, pkg, seen, from, prefix, e),
{
    let q = choose|q: int| 0 <= q < prev.len() && prev[q] == e;
    assert(kept_or_reached(before, pkg, seen, from, prefix, prev[q]));
}

/// An entry recorded for the `j`-th name of a named import reaches the
/// definition through that import.
proof fn lemma_named_reaches(
    pkg: Package,
    seen: Seq<Seq<char>>,
    i: int,
    k: int,
    t: int,
    j: int,
    prefix: Seq<char>,
    e: Export,
)
    requires
        pkg.files@[i].imports@[k].target matches Some(tp) && pkg.index_of(tp@) == Some(t) && (
        pkg.files@[i].imports@[k].items matches Items::Named(list) && 0 <= j < list@.len() && e.public@
            == prefix + list@[j].1@ && (pkg.binds_at(t, list@[j].0@) ==> e.file@ == tp@ && e.name@
            == list@[j].0@)),
        pkg.defines(e.file@, e.name@),
    ensures
        import_reaches(pkg, seen, i, k, prefix, e.file@, e.name@, e.public@),
{
}

/// What an import of the file at `from` reaches, a user importing that
/// file reaches.
proof fn lemma_lift(
    pkg: Package,
    seen: Seq<Seq<char>>,
    from: Seq<char>,
    i: int,
    k: int,
    prefix: Seq<char>,
    e: Export,
)
    requires
        seen.len() < pkg.files@.len(),
        pkg.index_of(from) == Some(i),
        0 <= k < pkg.files@[i].imports@.len(),
        import_reaches(pkg, seen.push(from), i, k, prefix, e.file@, e.name@, e.public@),
    ensures
        reaches(pkg, seen, from, prefix, e.file@, e.name@, e.public@),
{
    assert(reach_step(k));
    assert(exists|kk: int|
        0 <= kk < pkg.files@[i].imports@.len() && #[trigger] reach_step(kk) && import_reaches(
            pkg,
            seen.push(from),
            i,
            kk,
            prefix,
            e.file@,
            e.name@,
            e.public@,
        ));
}

/// What a module or wildcard import of the file at `file` adds, by
/// recording the names of the file it brings in and walking on into it, is
/// reached from `file`; what was there before stays as it was.
proof fn lemma_wholesale_reached(
    pkg: Package,
    before: Seq<Export>,
    seen: Seq<Seq<char>>,
    file: Seq<char>,
    i: int,
    k: int,
    t: int,
    prefix: Seq<char>,
    inner: Seq<char>,
    at_start: Seq<Export>,
    recorded: Seq<Export>,
    after: Seq<Export>,
)
    requires
        seen.len() < pkg.files@.len(),
        pkg.index_of(file) == Some(i),
        0 <= k < pkg.files@[i].imports@.len(),
        pkg.files@[i].imports@[k].target matches Some(tp) && pkg.index_of(tp@) == Some(t)
            && pkg.files@[t].path@ == tp@,
        (pkg.files@[i].imports@[k].items matches Items::Module(b) && inner == prefix + b@ + seq!['.'])
            || (pkg.files@[i].imports@[k].items is Wildcard && inner == prefix),
        forall|q: int| 0 <= q < at_start.len() ==> #[trigger] kept_or_reached(before, pkg, seen, file, prefix, at_start[q]),
        forall|q: int|
            0 <= q < recorded.len() ==> at_start.contains(#[trigger] recorded[q]) || (recorded[q].file@
                == pkg.files@[t].path@ && pkg.binds_at(t, recorded[q].name@) && recorded[q].public@ == inner
                + recorded[q].name@),
        forall|q: int|
            0 <= q < after.len() ==> #[trigger] kept_or_reached(
                recorded,
                pkg,
                seen.push(file),
                pkg.files@[t].path@,
                inner,
                after[q],
            ),
    ensures
        forall|q: int| 0 <= q < after.len() ==> #[trigger] kept_or_reached(before, pkg, seen, file, prefix, after[q]),
{
    assert forall|q: int| 0 <= q < after.len() implies #[trigger] kept_or_reached(before, pkg, seen, file, prefix, after[q]) by {
        let e = after[q];
        assert(kept_or_reached(recorded, pkg, seen.push(file), pkg.files@[t].path@, inner, e));
        if recorded.contains(e) {
            let r = choose|r: int| 0 <= r < recorded.len() && recorded[r] == e;
            assert(at_start.contains(recorded[r]) || (recorded[r].file@ == pkg.files@[t].path@));
            if !at_start.contains(e) {
                assert(import_reaches(pkg, seen.push(file), i, k, prefix, e.file@, e.name@, e.public@));
                lemma_lift(pkg, seen, file, i, k, prefix, e);
            } else {
                lemma_kept(before, pkg, seen, file, prefix, at_start, e);
            }
        } else {
            assert(import_reaches(pkg, seen.push(file), i, k, prefix, e.file@, e.name@, e.public@));
            lemma_lift(pkg, seen, file, i, k, prefix, e);
        }
    }
}

/// Record everything `file` re-exports, prefixed by `prefix`.
fn walk(pkg: &Package, w: &mut Walker, file: &str, prefix: &Vec<char>)
    requires
        pkg.wf(),
        old(w).ok(*pkg),
    ensures
        final(w).ok(*pkg),
        final(w).visiting@ == old(w).visiting@,
        keys_kept(old(w).exports@, final(w).exports@),
        !(exists|v: int| 0 <= v < old(w).visiting@.len() && (#[trigger] old(w).visiting@[v])@ == file@)
            ==> file_covered(*pkg, file@, final(w).exports@),
        forall|q: int|
            0 <= q < final(w).exports@.len() ==> #[trigger] kept_or_reached(
                old(w).exports@,
                *pkg,
                string_views(old(w).visiting@),
                file@,
                prefix@,
                final(w).exports@[q],
            ),
        export_views(final(w).exports@) == walk_spec(
            *pkg,
            string_views(old(w).visiting@),
            file@,
            prefix@,
            export_views(old(w).exports@),
        ),
    decreases pkg.files@.len() - old(w).visiting@.len(),
{
    proof {
        assert forall|q: int| 0 <= q < w.exports@.len() implies #[trigger] kept_or_reached(
            old(w).exports@,
            *pkg,
            string_views(old(w).visiting@),
            file@,
            prefix@,
            w.exports@[q],
        ) by {
            assert(old(w).exports@[q] == w.exports@[q]);
        }
    }
    let ghost sv = string_views(w.visiting@);
    if contains_string(&w.visiting, file) {
        proof {
            let v = choose|v: int| 0 <= v < w.visiting@.len() && (#[trigger] w.visiting@[v])@ == file@;
            assert(sv[v] == file@);
        }
        return;
    }
    assert(!sv.contains(file@)) by {
        if sv.contains(file@) {
            let v = choose|v: int| 0 <= v < sv.len() && sv[v] == file@;
            assert(w.visiting@[v]@ == file@);
        }
    }
    let i = match find_file(pkg, file) {
        Some(i) => i,
        None => return,
    };
    let ghost start = w.visiting@;
    let ghost seen = string_views(start);
    let ghost before = w.exports@;
    w.visiting.push(owned(file));
    assert(string_views(w.visiting@) =~= seen.push(file@));
    proof {
        assert forall|a: int, b: int| 0 <= a < b < w.visiting@.len() implies (#[trigger] w.visiting@[a])@
            != (#[trigger] w.visiting@[b])@ by {
            if b == w.visiting@.len() - 1 {
                assert(start[a] == w.visiting@[a]);
            } else {
                assert(start[a] == w.visiting@[a] && start[b] == w.visiting@[b]);
            }
        }
        assert forall|k: int| 0 <= k < w.visiting@.len() implies (#[trigger] pkg.index_of(w.visiting@[k]@)) is Some by {
            if k < start.len() {
                assert(start[k] == w.visiting@[k]);
            }
        }
        lemma_files_once_bounded(*pkg, w.visiting@);
    }
    let ghost pushed = w.visiting@;
    let ghost result = walk_spec(*pkg, seen, file@, prefix@, export_views(before));
    assert(result == walk_from(*pkg, string_views(pushed), i as int, 0, prefix@, export_views(before)));
    let imports = &pkg.files[i].imports;
    let mut k: usize = 0;
    while k < imports.len()
        invariant
            k <= imports@.len(),
            walk_from(*pkg, string_views(pushed), i as int, k as int, prefix@, export_views(w.exports@)) == result,
            result == walk_spec(*pkg, seen, file@, prefix@, export_views(before)),
            pkg.wf(),
            w.ok(*pkg),
            w.visiting@ == pushed,
            pushed.len() == start.len() + 1,
            pushed.drop_last() == start,
            pushed.len() <= pkg.files@.len(),
            old(w).visiting@ == start,
            i < pkg.files@.len(),
            pkg.index_of(file@) == Some(i as int),
            imports@ == pkg.files@[i as int].imports@,
            keys_kept(old(w).exports@, w.exports@),
            forall|q: int| 0 <= q < k ==> #[trigger] covered(*pkg, i as int, q, w.exports@),
            seen == string_views(start),
            string_views(pushed) == seen.push(file@),
            before == old(w).exports@,
            forall|q: int|
                0 <= q < w.exports@.len() ==> #[trigger] kept_or_reached(before, *pkg, seen, file@, prefix@, w.exports@[q]),
        decreases imports@.len() - k,
    {
        let import = &imports[k];
        let ghost at_start = w.exports@;
        let ghost step = import_step(*pkg, string_views(pushed), i as int, k as int, prefix@, export_views(at_start));
        assert(walk_from(*pkg, string_views(pushed), i as int, k as int, prefix@, export_views(at_start))
            == walk_from(*pkg, string_views(pushed), i as int, k as int + 1, prefix@, step));
        match &import.target {
            None => {},
            Some(target) => {
                match find_file(pkg, target.as_str()) {
                    None => {},
                    Some(t) => {
                        match &import.items {
                            Items::Module(binding) => {
                                let mut inner = prefixed(prefix, binding.as_str());
                                inner.push('.');
                                assert(inner@ =~= prefix@ + binding@ + seq!['.']);
                                record_all(pkg, t, &mut w.exports, &inner);
                                let ghost recorded = w.exports@;
                                walk(pkg, w, target.as_str(), &inner);
                                assert(covered(*pkg, i as int, k as int, recorded));
                                proof {
                                    lemma_covered_kept(*pkg, i as int, k as int, recorded, w.exports@);
                                    lemma_wholesale_reached(*pkg, before, seen, file@, i as int, k as int, t as int, prefix@, inner@, at_start, recorded, w.exports@);
                                }
                            },
                            Items::Wildcard => {
                                record_all(pkg, t, &mut w.exports, prefix);
                                let ghost recorded = w.exports@;
                                walk(pkg, w, target.as_str(), prefix);
                                assert(covered(*pkg, i as int, k as int, recorded));
                                proof {
                                    lemma_covered_kept(*pkg, i as int, k as int, recorded, w.exports@);
                                    lemma_wholesale_reached(*pkg, before, seen, file@, i as int, k as int, t as int, prefix@, prefix@, at_start, recorded, w.exports@);
                                }
                            },
                            Items::Named(named) => {
                                let mut j: usize = 0;
                                while j < named.len()
                                    invariant
                                        j <= named@.len(),
                                        pkg.wf(),
                                        w.ok(*pkg),
                                        w.visiting@ == pushed,
                                        t < pkg.files@.len(),
                                        pkg.files@[t as int].path@ == target@,
                                        pkg.index_of(target@) == Some(t as int),
                                        keys_kept(at_start, w.exports@),
                                        forall|q: int|
                                            0 <= q < j && pkg.binds_at(t as int, named@[q].0@) ==> has_key(
                                                w.exports@,
                                                pkg.files@[t as int].path@,
                                                (#[trigger] named@[q]).0@,
                                            ),
                                        pushed.len() <= pkg.files@.len(),
                                        pushed.len() == start.len() + 1,
                                        seen == string_views(start),
                                        i < pkg.files@.len(),
                                        pkg.index_of(file@) == Some(i as int),
                                        imports@ == pkg.files@[i as int].imports@,
                                        k < imports@.len(),
                                        imports@[k as int].target == Some(*target),
                                        imports@[k as int].items == Items::Named(*named),
                                        export_views(w.exports@) == named_recorded(
                                            *pkg,
                                            target@,
                                            named@,
                                            prefix@,
                                            export_views(at_start),
                                            j as int,
                                        ),
                                        forall|q: int|
                                            0 <= q < w.exports@.len() ==> #[trigger] kept_or_reached(
                                                before,
                                                *pkg,
                                                seen,
                                                file@,
                                                prefix@,
                                                w.exports@[q],
                                            ),
                                    decreases named@.len() - j,
                                {
                                    let ghost mid = w.exports@;
                                    match define(pkg, target.as_str(), named[j].0.as_str()) {
                                        Some((df, dn)) => {
                                            let public = prefixed(prefix, named[j].1.as_str());
                                            record_defined(pkg, &mut w.exports, &df, &dn, public);
                                            proof {
                                                assert forall|q: int| 0 <= q < w.exports@.len() implies #[trigger] kept_or_reached(
                                                    before,
                                                    *pkg,
                                                    seen,
                                                    file@,
                                                    prefix@,
                                                    w.exports@[q],
                                                ) by {
                                                    let e = w.exports@[q];
                                                    if mid.contains(e) {
                                                        lemma_kept(before, *pkg, seen, file@, prefix@, mid, e);
                                                    } else {
                                                        assert(named@[j as int].1@ == named[j as int].1@);
                                                        assert(seen.len() == start.len());
                                                        assert(e.file@ == df@ && e.name@ == dn@ && e.public@ == public@);
                                                        assert(public@ == prefix@ + named@[j as int].1@);
                                                        lemma_named_reaches(*pkg, seen.push(file@), i as int, k as int, t as int, j as int, prefix@, e);
                                                        lemma_lift(*pkg, seen, file@, i as int, k as int, prefix@, e);
                                                    }
                                                }
                                            }
                                        },
                                        None => {},
                                    }
                                    assert forall|q: int|
                                        0 <= q < j + 1 && pkg.binds_at(t as int, named@[q].0@) implies has_key(
                                            w.exports@,
                                            pkg.files@[t as int].path@,
                                            (#[trigger] named@[q]).0@,
                                        ) by {
                                        if q < j {
                                            assert(has_key(mid, pkg.files@[t as int].path@, named@[q].0@));
                                        }
                                    }
                                    j = j + 1;
                                }
                                assert(covered(*pkg, i as int, k as int, w.exports@));
                            },
                        }
                    },
                }
            },
        }
        assert(export_views(w.exports@) == step);
        proof {
            assert(covered(*pkg, i as int, k as int, w.exports@));
            assert forall|q: int| 0 <= q < k + 1 implies #[trigger] covered(*pkg, i as int, q, w.exports@) by {
                if q < k {
                    lemma_covered_kept(*pkg, i as int, q, at_start, w.exports@);
                }
            }
        }
        k = k + 1;
    }
    w.visiting.pop();
    assert(w.visiting@ =~= start);
}

/// Record that a definition the package has is public as `public`.
fn record_defined(pkg: &Package, es: &mut Vec<Export>, file: &String, name: &String, public: Vec<char>)
    requires
        distinct_keys(old(es)@),
        all_defined(*pkg, old(es)@),
        pkg.defines(file@, name@),
    ensures
        distinct_keys(final(es)@),
        all_defined(*pkg, final(es)@),
        keys_kept(old(es)@, final(es)@),
        has_key(final(es)@, file@, name@),
        forall|k: int|
            0 <= k < final(es)@.len() ==> ((#[trigger] final(es)@[k]).file@ == file@ && final(es)@[k].name@
                == name@ && final(es)@[k].public@ == public@) || old(es)@.contains(final(es)@[k]),
        export_views(final(es)@) == recorded(export_views(old(es)@), file@, name@, public@),
{
    let ghost before = es@;
    record(es, file.as_str(), name.as_str(), public);
    proof {
        assert forall|k: int| 0 <= k < es@.len() implies pkg.defines((#[trigger] es@[k]).file@, es@[k].name@) by {
            if !(es@[k].file@ == file@ && es@[k].name@ == name@) {
                lemma_key_at(before, es@[k].file@, es@[k].name@, before.len() as int);
                let j = key_at(before, es@[k].file@, es@[k].name@, before.len() as int)->0;
                assert(pkg.defines(before[j].file@, before[j].name@));
            }
        }
    }
}

/// Record every name file `t` binds as public under `prefix`.
fn record_all(pkg: &Package, t: usize, es: &mut Vec<Export>, prefix: &Vec<char>)
    requires
        t < pkg.files@.len(),
        pkg.wf(),
        distinct_keys(old(es)@),
        all_defined(*pkg, old(es)@),
    ensures
        distinct_keys(final(es)@),
        all_defined(*pkg, final(es)@),
        keys_kept(old(es)@, final(es)@),
        forall|j: int|
            0 <= j < pkg.files@[t as int].bindings@.len() ==> has_key(
                final(es)@,
                pkg.files@[t as int].path@,
                #[trigger] pkg.files@[t as int].bindings@[j]@,
            ),
        forall|k: int|
            0 <= k < final(es)@.len() ==> old(es)@.contains(#[trigger] final(es)@[k]) || (final(es)@[k].file@
                == pkg.files@[t as int].path@ && pkg.binds_at(t as int, final(es)@[k].name@) && final(es)@[k].public@
                == prefix@ + final(es)@[k].name@),
        export_views(final(es)@) == all_recorded(
            *pkg,
            t as int,
            prefix@,
            export_views(old(es)@),
            pkg.files@[t as int].bindings@.len() as int,
        ),
{
    let f = &pkg.files[t];
    let mut j: usize = 0;
    while j < f.bindings.len()
        invariant
            t < pkg.files@.len(),
            j <= f.bindings@.len(),
            f == &pkg.files@[t as int],
            pkg.wf(),
            distinct_keys(es@),
            all_defined(*pkg, es@),
            keys_kept(old(es)@, es@),
            forall|q: int| 0 <= q < j ==> has_key(es@, f.path@, #[trigger] f.bindings@[q]@),
            forall|k: int|
                0 <= k < es@.len() ==> old(es)@.contains(#[trigger] es@[k]) || (es@[k].file@ == f.path@
                    && pkg.binds_at(t as int, es@[k].name@) && es@[k].public@ == prefix@ + es@[k].name@),
            export_views(es@) == all_recorded(*pkg, t as int, prefix@, export_views(old(es)@), j as int),
        decreases f.bindings@.len() - j,
    {
        let ghost mid = es@;
        proof {
            lemma_index_of_file(*pkg, t as int);
            lemma_defines(*pkg, t as int, j as int, f.bindings@[j as int]@);
        }
        let public = prefixed(prefix, f.bindings[j].as_str());
        record_defined(pkg, es, &f.path, &f.bindings[j], public);
        assert forall|q: int| 0 <= q < j + 1 implies has_key(es@, f.path@, #[trigger] f.bindings@[q]@) by {
            if q < j {
                assert(has_key(mid, f.path@, f.bindings@[q]@));
            }
        }
        assert forall|k: int| 0 <= k < es@.len() implies old(es)@.contains(#[trigger] es@[k]) || (es@[k].file@
            == f.path@ && pkg.binds_at(t as int, es@[k].name@) && es@[k].public@ == prefix@ + es@[k].name@) by {
            if !(es@[k].file@ == f.path@ && es@[k].name@ == f.bindings@[j as int]@ && es@[k].public@ == prefix@
                + f.bindings@[j as int]@) {
                assert(mid.contains(es@[k]));
                let q = choose|q: int| 0 <= q < mid.len() && mid[q] == es@[k];
                assert(mid[q] == es@[k]);
            } else {
                assert(f.bindings@[j as int]@ == es@[k].name@);
            }
        }
        j = j + 1;
    }
}

/// A file the package finds by its path, binding `name`, defines it.
proof fn lemma_defines(pkg: Package, i: int, j: int, name: Seq<char>)
    requires
        0 <= i < pkg.files@.len(),
        pkg.index_of(pkg.files@[i].path@) == Some(i),
        0 <= j < pkg.files@[i].bindings@.len(),
        pkg.files@[i].bindings@[j]@ == name,
    ensures
        pkg.defines(pkg.files@[i].path@, name),
{
    let p = pkg.files@[i].path@;
    assert(pkg.files@[i].bindings@[j]@ == name);
    assert(exists|k: int|
        0 <= k < pkg.files@[i].bindings@.len() && (#[trigger] pkg.files@[i].bindings@[k])@ == name);
}

/// In a package where no path names two files, a file's path finds it.
proof fn lemma_index_of_file(pkg: Package, t: int)
    requires
        pkg.wf(),
        0 <= t < pkg.files@.len(),
    ensures
        pkg.index_of(pkg.files@[t].path@) == Some(t),
{
    let p = pkg.files@[t].path@;
    lemma_find(pkg.files@, p, pkg.files@.len() as int);
    let i = pkg.index_of(p);
    if i != Some(t) {
        let i = i->0;
        assert(pkg.paths()[i] == pkg.paths()[t]);
    }
}

/// Where `name` is defined, following `file`'s own imports if it is not
/// defined there.
fn define(pkg: &Package, file: &str, name: &str) -> (r: Option<(String, String)>)
    requires
        pkg.wf(),
    ensures
        r matches Some((f, n)) ==> pkg.defines(f@, n@),
        (pkg.index_of(file@) matches Some(i) && pkg.binds_at(i, name@)) ==> (r matches Some((f, n))
            && f@ == file@ && n@ == name@),
        r matches Some((f, n)) ==> define_spec(*pkg, file@, name@, seq![]).0 == Some((f@, n@)),
        r is None ==> define_spec(*pkg, file@, name@, seq![]).0 is None,
{
    match find_file(pkg, file) {
        Some(i) => {
            if binds(pkg, i, name) {
                let rf = owned(file);
                let rn = owned(name);
                proof {
                    let j = choose|j: int|
                        0 <= j < pkg.files@[i as int].bindings@.len()
                            && (#[trigger] pkg.files@[i as int].bindings@[j])@ == name@;
                    lemma_defines(*pkg, i as int, j, name@);
                    assert(!Seq::<Seq<char>>::empty().contains(file@));
                }
                return Some((rf, rn));
            }
        },
        None => {},
    }
    let mut seen: Vec<String> = Vec::new();
    assert(string_views(seen@) =~= Seq::<Seq<char>>::empty());
    define_deep(pkg, file, name, &mut seen)
}

/// The original name of the first pair of `named` from `j` on bound as
/// `name`.
pub open spec fn original_of(named: Seq<(String, String)>, name: Seq<char>, j: int) -> Option<Seq<char>>
    decreases named.len() - j,
{
    if j < 0 || j >= named.len() {
        None
    } else if named[j].1@ == name {
        Some(named[j].0@)
    } else {
        original_of(named, name, j + 1)
    }
}

/// The name an import binds `name` from, as a value: the same name behind
/// `*`, the original of the first item bound as `name`, none behind a
/// module binding.
pub open spec fn source_name_spec(items: Items, name: Seq<char>) -> Option<Seq<char>> {
    match items {
        Items::Wildcard => Some(name),
        Items::Named(named) => original_of(named@, name, 0),
        Items::Module(_) => None,
    }
}

/// The name an import binds `name` from, looking into the imported file:
/// the same name behind `*`, the original name behind `a as name`, none
/// behind a module binding.
fn source_name(items: &Items, name: &str) -> (r: Option<String>)
    ensures
        match r {
            Some(n) => source_name_spec(*items, name@) == Some(n@),
            None => source_name_spec(*items, name@) is None,
        },
{
    match items {
        Items::Wildcard => Some(owned(name)),
        Items::Named(named) => {
            let mut j: usize = 0;
            while j < named.len()
                invariant
                    j <= named@.len(),
                    source_name_spec(*items, name@) == original_of(named@, name@, j as int),
                decreases named@.len() - j,
            {
                if str_eq(named[j].1.as_str(), name) {
                    return Some(copy_string(&named[j].0));
                }
                j = j + 1;
            }
            None
        },
        Items::Module(_) => None,
    }
}

fn define_deep(pkg: &Package, file: &str, name: &str, seen: &mut Vec<String>) -> (r: Option<(String, String)>)
    requires
        pkg.wf(),
        files_once(*pkg, old(seen)@),
    ensures
        files_once(*pkg, final(seen)@),
        final(seen)@.len() >= old(seen)@.len(),
        r matches Some((f, n)) ==> pkg.defines(f@, n@),
        (exists|v: int| 0 <= v < old(seen)@.len() && (#[trigger] old(seen)@[v])@ == file@) ==> r is None
            && final(seen)@ == old(seen)@,
        pkg.index_of(file@) is None ==> r is None,
        (!(exists|v: int| 0 <= v < old(seen)@.len() && (#[trigger] old(seen)@[v])@ == file@)
            && pkg.defines(file@, name@)) ==> (r matches Some((f, n))
            && f@ == file@ && n@ == name@ && final(seen)@ == old(seen)@.push(final(seen)@.last())
            && final(seen)@.last()@ == file@),
        r matches Some((f, n)) ==> define_spec(*pkg, file@, name@, string_views(old(seen)@)).0 == Some((f@, n@)),
        r is None ==> define_spec(*pkg, file@, name@, string_views(old(seen)@)).0 is None,
        string_views(final(seen)@) == define_spec(*pkg, file@, name@, string_views(old(seen)@)).1,
    decreases pkg.files@.len() - old(seen)@.len(),
{
    let ghost sv = string_views(seen@);
    if contains_string(seen, file) {
        proof {
            let v = choose|v: int| 0 <= v < seen@.len() && (#[trigger] seen@[v])@ == file@;
            assert(sv[v] == file@);
        }
        return None;
    }
    assert(!sv.contains(file@)) by {
        if sv.contains(file@) {
            let v = choose|v: int| 0 <= v < sv.len() && sv[v] == file@;
            assert(seen@[v]@ == file@);
        }
    }
    let i = match find_file(pkg, file) {
        Some(i) => i,
        None => return None,
    };
    let ghost start = seen@;
    seen.push(owned(file));
    assert(string_views(seen@) =~= sv.push(file@));
    proof {
        assert forall|a: int, b: int| 0 <= a < b < seen@.len() implies (#[trigger] seen@[a])@
            != (#[trigger] seen@[b])@ by {
            if b == seen@.len() - 1 {
                assert(start[a] == seen@[a]);
            } else {
                assert(start[a] == seen@[a] && start[b] == seen@[b]);
            }
        }
        assert forall|k: int| 0 <= k < seen@.len() implies (#[trigger] pkg.index_of(seen@[k]@)) is Some by {
            if k < start.len() {
                assert(start[k] == seen@[k]);
            }
        }
        lemma_files_once_bounded(*pkg, seen@);
    }
    if binds(pkg, i, name) {
        let rf = owned(file);
        let rn = owned(name);
        proof {
            let j = choose|j: int|
                0 <= j < pkg.files@[i as int].bindings@.len()
                    && (#[trigger] pkg.files@[i as int].bindings@[j])@ == name@;
            lemma_defines(*pkg, i as int, j, name@);
        }
        return Some((rf, rn));
    }
    let imports = &pkg.files[i].imports;
    let mut k: usize = 0;
    assert(define_spec(*pkg, file@, name@, sv) == define_from(*pkg, i as int, 0, name@, string_views(seen@)));
    while k < imports.len()
        invariant
            k <= imports@.len(),
            define_from(*pkg, i as int, k as int, name@, string_views(seen@)) == define_spec(*pkg, file@, name@, sv),
            sv == string_views(old(seen)@),
            pkg.wf(),
            files_once(*pkg, seen@),
            seen@.len() > start.len(),
            old(seen)@ == start,
            i < pkg.files@.len(),
            imports@ == pkg.files@[i as int].imports@,
            !(exists|v: int| 0 <= v < old(seen)@.len() && (#[trigger] old(seen)@[v])@ == file@),
            pkg.index_of(file@) == Some(i as int),
            !pkg.defines(file@, name@),
        decreases imports@.len() - k,
    {
        let import = &imports[k];
        match &import.target {
            None => {},
            Some(target) => {
                match source_name(&import.items, name) {
                    None => {},
                    Some(next) => {
                        proof {
                            lemma_files_once_bounded(*pkg, seen@);
                        }
                        let ghost before = string_views(seen@);
                        match define_deep(pkg, target.as_str(), next.as_str(), seen) {
                            Some(d) => return Some(d),
                            None => {},
                        }
                        assert(string_views(seen@).len() >= before.len());
                    },
                }
            },
        }
        k = k + 1;
    }
    None
}

/// What walking a package's re-exports from the file at `entrypoint`
/// records: each definition reached with the path it was last reached by.
pub open spec fn exports_spec(pkg: Package, entrypoint: Seq<char>) -> Seq<(Seq<char>, Seq<char>, Seq<char>)> {
    walk_spec(pkg, seq![], normal(entrypoint), seq![], seq![])
}

/// The public path `es` records for `file`'s `name`.
pub open spec fn public_of(es: Seq<(Seq<char>, Seq<char>, Seq<char>)>, file: Seq<char>, name: Seq<char>) -> Option<Seq<char>> {
    match key_index(es, file, name, es.len() as int) {
        Some(m) => Some(es[m].2),
        None => None,
    }
}

/// Walk a package's re-exports, from its entry point outwards.
///
/// Every binding the walk reaches from the entry point is recorded under
/// the name it is reached by, the path it is reached by last winning; each
/// definition the walk records is one the package has. A named import is
/// followed to its definition through the imported file's own imports,
/// each file searched at most once while one name is looked up. A binding
/// the walk never reaches is not part of the API, and its absence from the
/// result is what says so.
pub fn exports(entrypoint: &str, package: &Package) -> (r: Exports)
    requires
        package.wf(),
    ensures
        export_views(r.entries()) == exports_spec(*package, entrypoint@),
        forall|file: Seq<char>, name: Seq<char>|
            #[trigger] r.lookup(file, name) == public_of(exports_spec(*package, entrypoint@), file, name),
        distinct_keys(r.entries()),
        all_defined(*package, r.entries()),
        file_covered(*package, normal(entrypoint@), r.entries()),
        forall|q: int|
            0 <= q < r.entries().len() ==> reaches(
                *package,
                seq![],
                normal(entrypoint@),
                seq![],
                (#[trigger] r.entries()[q]).file@,
                r.entries()[q].name@,
                r.entries()[q].public@,
            ),
        forall|file: Seq<char>, name: Seq<char>|
            #[trigger] r.lookup(file, name) matches Some(public) ==> reaches(
                *package,
                seq![],
                normal(entrypoint@),
                seq![],
                file,
                name,
                public,
            ),
{
    let mut w = Walker { exports: Vec::new(), visiting: Vec::new() };
    let start = normalize(&chars_of(entrypoint));
    let prefix: Vec<char> = Vec::new();
    proof {
        assert(string_views(w.visiting@) =~= Seq::<Seq<char>>::empty());
        assert(export_views(w.exports@) =~= Seq::<(Seq<char>, Seq<char>, Seq<char>)>::empty());
        assert(prefix@ =~= Seq::<char>::empty());
    }
    walk(package, &mut w, string_of(start.as_slice()).as_str(), &prefix);
    let r = Exports { entries: w.exports };
    proof {
        assert(export_views(r.entries@) == exports_spec(*package, entrypoint@));
        assert forall|file: Seq<char>, name: Seq<char>|
            #[trigger] r.lookup(file, name) == public_of(exports_spec(*package, entrypoint@), file, name) by {
            lemma_key_index(r.entries@, file, name, r.entries@.len() as int);
            let ev = export_views(r.entries@);
            if let Some(m) = key_at(r.entries@, file, name, r.entries@.len() as int) {
                lemma_key_at(r.entries@, file, name, r.entries@.len() as int);
                assert(ev[m].2 == r.entries@[m].public@);
            }
        }
        assert(string_views(Seq::<String>::empty()) =~= Seq::<Seq<char>>::empty());
        assert(prefix@ =~= Seq::<char>::empty());
        assert forall|file: Seq<char>, name: Seq<char>|
            #[trigger] r.lookup(file, name) is Some implies reaches(
                *package,
                seq![],
                normal(entrypoint@),
                seq![],
                file,
                name,
                r.lookup(file, name)->0,
            ) by {
            let es = r.entries@;
            lemma_key_at(es, file, name, es.len() as int);
            if let Some(q) = key_at(es, file, name, es.len() as int) {
                assert(kept_or_reached(Seq::<Export>::empty(), *package, seq![], normal(entrypoint@), seq![], es[q]));
            }
        }
        assert forall|q: int| 0 <= q < r.entries@.len() implies reaches(
            *package,
            seq![],
            normal(entrypoint@),
            seq![],
            (#[trigger] r.entries@[q]).file@,
            r.entries@[q].name@,
            r.entries@[q].public@,
        ) by {
            assert(kept_or_reached(Seq::<Export>::empty(), *package, seq![], normal(entrypoint@), seq![], r.entries@[q]));
        }
    }
    r
}

} // verus!

verus! {

// -- the manifest -------------------------------------------------------------------

/// The value of an `entrypoint` line, after the key: `= "path"`, the path
/// ending at the next `"`.
pub open spec fn entry_value(v: Seq<char>) -> Option<Seq<char>> {
    let v1 = trim_start(v);
    if v1.len() == 0 || v1[0] != '=' {
        None
    } else {
        let v2 = trim(v1.drop_first());
        if v2.len() == 0 || v2[0] != '"' {
            None
        } else {
            let q = v2.drop_first();
            match first_quote_at(q, 0) {
                Some(e) => Some(q.subrange(0, e)),
                None => None,
            }
        }
    }
}

/// Where the first `"` of `s[i..]` stands.
pub open spec fn first_quote_at(s: Seq<char>, i: int) -> Option<int>
    decreases s.len() - i,
{
    if i < 0 || i >= s.len() {
        None
    } else if s[i] == '"' {
        Some(i)
    } else {
        first_quote_at(s, i + 1)
    }
}

/// The `entrypoint` of a manifest's lines from `i` on, `in_package`
/// telling whether the table they start in is `[package]`: the first
/// `entrypoint` key under `[package]` decides, and one whose value is not
/// a quoted string leaves none.
pub open spec fn manifest_entry(lines: Seq<Seq<char>>, i: int, in_package: bool) -> Option<Seq<char>>
    decreases lines.len() - i,
{
    if i < 0 || i >= lines.len() {
        None
    } else {
        let line = trim(lines[i]);
        if starts_with(line, seq!['[']) {
            manifest_entry(lines, i + 1, starts_with(line, "[package]"@))
        } else if !starts_with(line, "entrypoint"@) || !in_package {
            manifest_entry(lines, i + 1, in_package)
        } else {
            entry_value(line.subrange("entrypoint"@.len() as int, line.len() as int))
        }
    }
}

fn entry_value_exec(v: &Vec<char>) -> (r: Option<Vec<char>>)
    ensures
        match r {
            Some(e) => entry_value(v@) == Some(e@),
            None => entry_value(v@) is None,
        },
{
    let v1 = trim_start_chars(v);
    if v1.len() == 0 || v1[0] != '=' {
        return None;
    }
    let rest = slice_chars(&v1, 1, v1.len());
    assert(rest@ =~= v1@.drop_first());
    let v2 = trim_chars(&rest);
    if v2.len() == 0 || v2[0] != '"' {
        return None;
    }
    let q = slice_chars(&v2, 1, v2.len());
    assert(q@ =~= v2@.drop_first());
    let mut e: usize = 0;
    while e < q.len() && q[e] != '"'
        invariant
            e <= q@.len(),
            first_quote_at(q@, 0) == first_quote_at(q@, e as int),
        decreases q@.len() - e,
    {
        e = e + 1;
    }
    if e == q.len() {
        None
    } else {
        Some(slice_chars(&q, 0, e))
    }
}

/// The entry point a manifest names, relative to the package directory
/// (only `[package] entrypoint` is read).
pub fn manifest_entrypoint(manifest: &str) -> (r: Option<String>)
    ensures
        match r {
            Some(e) => manifest_entry(lines_from(manifest@, 0), 0, false) == Some(e@),
            None => manifest_entry(lines_from(manifest@, 0), 0, false) is None,
        },
{
    let lines = lines_of(&chars_of(manifest));
    let ghost ls = char_views(lines@);
    let mut in_package = false;
    let mut i: usize = 0;
    proof {
        reveal_strlit("[package]");
        reveal_strlit("entrypoint");
    }
    while i < lines.len()
        invariant
            i <= lines@.len(),
            ls == char_views(lines@),
            ls == lines_from(manifest@, 0),
            manifest_entry(ls, 0, false) == manifest_entry(ls, i as int, in_package),
            "entrypoint"@.len() == 10,
        decreases lines@.len() - i,
    {
        let line = trim_chars(&lines[i]);
        assert(line@ == trim(ls[i as int]));
        if line.len() > 0 && line[0] == '[' {
            assert(line@.subrange(0, 1) =~= seq!['[']);
            in_package = starts_with_exec(&line, "[package]");
        } else {
            assert(line@.len() > 0 ==> line@.subrange(0, 1)[0] == line@[0]);
            let key = starts_with_exec(&line, "entrypoint");
            if key && in_package {
                let value = slice_chars(&line, 10, line.len());
                return match entry_value_exec(&value) {
                    Some(e) => Some(string_of(e.as_slice())),
                    None => None,
                };
            }
        }
        i = i + 1;
    }
    None
}

/// The entry point of the package rooted at `directory`, from the text of
/// its `typst.toml`.
pub fn entrypoint(directory: &str, manifest: &str) -> (r: Option<String>)
    ensures
        match r {
            Some(e) => manifest_entry(lines_from(manifest@, 0), 0, false) matches Some(rel)
                && e@ == resolve(directory@, rel),
            None => manifest_entry(lines_from(manifest@, 0), 0, false) is None,
        },
{
    match manifest_entrypoint(manifest) {
        Some(rel) => Some(string_of(resolve_exec(&chars_of(directory), &chars_of(rel.as_str())).as_slice())),
        None => None,
    }
}

// -- the packages of a run ----------------------------------------------------------

/// A package as read off the disk: its root directory, the text of its
/// `typst.toml` (`None` where it could not be read), and each of its `.typ`
/// files with its path and source. Paths are compared as text once `.` and
/// `..` steps are resolved, so the caller hands in paths the file system
/// has already resolved (canonical paths, symbolic links followed).
pub struct PackageSource {
    pub root: String,
    pub manifest: Option<String>,
    pub files: Vec<(String, String)>,
}

/// Whether one of `packages` is rooted at `root`.
pub open spec fn root_given(packages: Seq<PackageSource>, root: Seq<char>) -> bool {
    exists|j: int| 0 <= j < packages.len() && (#[trigger] packages[j]).root@ == root
}

/// The packages the inputs belong to, and what they export.
///
/// A run may name a package directory, a file inside one, or neither; the
/// answer to "what is this called, and is it public?" is only available
/// for files an entry point speaks for.
pub struct Api {
    exports: Vec<Export>,
    /// The entry points read, named in the report about what they leave out.
    pub entrypoints: Vec<String>,
    /// The package roots found, so a file can be tested for belonging to one.
    roots: Vec<String>,
}

/// Whether `file` lies under `root`: the steps of `root` begin those of
/// `file`, both absolute or both not (`Path::starts_with`).
pub open spec fn under(root: Seq<char>, file: Seq<char>) -> bool {
    let r = steps(pieces(root));
    let f = steps(pieces(file));
    absolute(root) == absolute(file) && r.len() <= f.len() && f.subrange(0, r.len() as int) == r
}

fn under_exec(root: &Vec<char>, file: &Vec<char>) -> (r: bool)
    ensures
        r == under(root@, file@),
{
    let ra = root.len() > 0 && root[0] == '/';
    let fa = file.len() > 0 && file[0] == '/';
    if ra != fa {
        return false;
    }
    let r = path_steps(root);
    let f = path_steps(file);
    if r.len() > f.len() {
        return false;
    }
    let mut k: usize = 0;
    while k < r.len()
        invariant
            k <= r@.len() <= f@.len(),
            char_views(r@) == steps(pieces(root@)),
            char_views(f@) == steps(pieces(file@)),
            absolute(root@) == absolute(file@),
            char_views(f@).subrange(0, k as int) == char_views(r@).subrange(0, k as int),
        decreases r@.len() - k,
    {
        assert(char_views(r@)[k as int] == r@[k as int]@);
        assert(char_views(f@)[k as int] == f@[k as int]@);
        if !seq_eq(&r[k], &f[k]) {
            assert(char_views(f@).subrange(0, r@.len() as int)[k as int] == char_views(f@)[k as int]);
            assert(char_views(f@).subrange(0, r@.len() as int)[k as int] != char_views(r@)[k as int]);
            assert(char_views(f@).subrange(0, r@.len() as int) != char_views(r@));
            return false;
        }
        assert(char_views(f@).subrange(0, k as int + 1) =~= char_views(r@).subrange(0, k as int + 1));
        k = k + 1;
    }
    assert(char_views(r@).subrange(0, r@.len() as int) =~= char_views(r@));
    true
}

/// Whether `d` holds a package rooted at `root`.
pub open spec fn has_root(d: Seq<(Seq<char>, Seq<char>)>, root: Seq<char>) -> bool {
    exists|k: int| 0 <= k < d.len() && (#[trigger] d[k]).0 == root
}

/// The packages discovery reads among the first `n` of `ps`, in order,
/// each as its root and its entry point: a root not read before whose
/// manifest names an entry point, resolved against the root.
pub open spec fn discovered(ps: Seq<PackageSource>, n: int) -> Seq<(Seq<char>, Seq<char>)>
    decreases n,
{
    if n <= 0 || n > ps.len() {
        seq![]
    } else {
        let prev = discovered(ps, n - 1);
        let p = ps[n - 1];
        if has_root(prev, p.root@) {
            prev
        } else {
            match p.manifest {
                Some(m) => match manifest_entry(lines_from(m@, 0), 0, false) {
                    Some(rel) => prev.push((p.root@, resolve(p.root@, rel))),
                    None => prev,
                },
                None => prev,
            }
        }
    }
}

/// Whether `e` was exported by one of `packages` read as a package: its
/// public path reaches its definition from the entry point recorded for
/// that package's root.
pub open spec fn from_package(packages: Seq<PackageSource>, roots: Seq<String>, entries: Seq<String>, e: Export) -> bool {
    exists|j: int, k: int, pkg: Package|
        #![trigger read_of(packages[j].files@, pkg), roots[k]]
        0 <= j < packages.len() && 0 <= k < roots.len() && k < entries.len() && packages[j].root@ == roots[k]@
            && read_of(packages[j].files@, pkg) && reaches(pkg, seq![], normal(entries[k]@), seq![], e.file@, e.name@, e.public@)
}

/// `es` with each of `xs[..n]` recorded in turn.
pub open spec fn recorded_each(
    es: Seq<(Seq<char>, Seq<char>, Seq<char>)>,
    xs: Seq<(Seq<char>, Seq<char>, Seq<char>)>,
    n: int,
) -> Seq<(Seq<char>, Seq<char>, Seq<char>)>
    decreases n,
{
    if n <= 0 || n > xs.len() {
        es
    } else {
        recorded(recorded_each(es, xs, n - 1), xs[n - 1].0, xs[n - 1].1, xs[n - 1].2)
    }
}

/// What the first `n` packages read, `pkgs`, entered at `entries`, export
/// between them: each package's exports recorded in turn, so a definition
/// two packages export keeps the public path of the later.
pub open spec fn api_entries(pkgs: Seq<Package>, entries: Seq<String>, n: int) -> Seq<(Seq<char>, Seq<char>, Seq<char>)>
    decreases n,
{
    if n <= 0 {
        seq![]
    } else {
        let xs = exports_spec(pkgs[n - 1], entries[n - 1]@);
        recorded_each(api_entries(pkgs, entries, n - 1), xs, xs.len() as int)
    }
}

proof fn lemma_api_entries_prefix(pkgs: Seq<Package>, entries: Seq<String>, p2: Seq<Package>, e2: Seq<String>, n: int)
    requires
        0 <= n <= pkgs.len(),
        n <= p2.len(),
        n <= entries.len(),
        n <= e2.len(),
        forall|k: int| 0 <= k < n ==> pkgs[k] == p2[k] && entries[k] == e2[k],
    ensures
        api_entries(pkgs, entries, n) == api_entries(p2, e2, n),
    decreases n,
{
    if n > 0 {
        lemma_api_entries_prefix(pkgs, entries, p2, e2, n - 1);
    }
}

impl Api {
    /// The entry points read, in the order their packages were found.
    pub closed spec fn entry_points(self) -> Seq<String> {
        self.entrypoints@
    }

    /// The roots of the packages found.
    pub closed spec fn roots(self) -> Seq<String> {
        self.roots@
    }

    /// Every definition the packages export, with its public path.
    pub closed spec fn entries(self) -> Seq<Export> {
        self.exports@
    }

    pub closed spec fn wf(self) -> bool {
        distinct_keys(self.exports@) && self.roots@.len() == self.entrypoints@.len()
    }

    /// No package found, nothing exported.
    pub fn new() -> (r: Api)
        ensures
            r.wf(),
            r.roots().len() == 0,
            r.entries().len() == 0,
    {
        Api { exports: Vec::new(), entrypoints: Vec::new(), roots: Vec::new() }
    }

    /// Read the package each input belongs to, once each, and its exports;
    /// a package whose manifest is missing or names no entry point
    /// contributes nothing. A definition two packages export keeps the
    /// public path of the later.
    pub fn discover(packages: &Vec<PackageSource>) -> (r: Api)
        ensures
            r.wf(),
            forall|a: int, b: int| 0 <= a < b < r.roots().len() ==> (#[trigger] r.roots()[a])@ != (#[trigger] r.roots()[b])@,
            forall|k: int| 0 <= k < r.roots().len() ==> root_given(packages@, (#[trigger] r.roots()[k])@),
            r.roots().len() == discovered(packages@, packages@.len() as int).len(),
            forall|k: int|
                0 <= k < r.roots().len() ==> (#[trigger] r.roots()[k])@ == discovered(
                    packages@,
                    packages@.len() as int,
                )[k].0 && r.entry_points()[k]@ == discovered(packages@, packages@.len() as int)[k].1,
            forall|q: int|
                0 <= q < r.entries().len() ==> from_package(
                    packages@,
                    r.roots(),
                    r.entry_points(),
                    #[trigger] r.entries()[q],
                ),
            exists|js: Seq<int>, pkgs: Seq<Package>|
                #![trigger api_entries(pkgs, r.entry_points(), js.len() as int)]
                js.len() == r.roots().len() && pkgs.len() == js.len() && (forall|k: int|
                    0 <= k < js.len() ==> 0 <= #[trigger] js[k] < packages@.len() && packages@[js[k]].root@
                        == r.roots()[k]@ && read_of(packages@[js[k]].files@, pkgs[k])) && export_views(r.entries())
                    == api_entries(pkgs, r.entry_points(), js.len() as int),
    {
        let mut api = Api::new();
        let mut i: usize = 0;
        let ghost mut js: Seq<int> = seq![];
        let ghost mut pkgs: Seq<Package> = seq![];
        assert(export_views(api.exports@) =~= api_entries(pkgs, api.entrypoints@, 0));
        while i < packages.len()
            invariant
                js.len() == api.roots@.len(),
                pkgs.len() == js.len(),
                forall|k: int|
                    0 <= k < js.len() ==> 0 <= #[trigger] js[k] < packages@.len() && packages@[js[k]].root@
                        == api.roots@[k]@ && read_of(packages@[js[k]].files@, pkgs[k]),
                export_views(api.exports@) == api_entries(pkgs, api.entrypoints@, js.len() as int),
                i <= packages@.len(),
                api.wf(),
                api.roots@.len() == discovered(packages@, i as int).len(),
                forall|k: int|
                    0 <= k < api.roots@.len() ==> (#[trigger] api.roots@[k])@ == discovered(packages@, i as int)[k].0
                        && api.entrypoints@[k]@ == discovered(packages@, i as int)[k].1,
                forall|a: int, b: int| 0 <= a < b < api.roots@.len() ==> (#[trigger] api.roots@[a])@ != (#[trigger] api.roots@[b])@,
                forall|k: int| 0 <= k < api.roots@.len() ==> root_given(packages@, (#[trigger] api.roots@[k])@),
                forall|q: int|
                    0 <= q < api.exports@.len() ==> from_package(
                        packages@,
                        api.roots@,
                        api.entrypoints@,
                        #[trigger] api.exports@[q],
                    ),
            decreases packages@.len() - i,
        {
            let p = &packages[i];
            let ghost d = discovered(packages@, i as int);
            let ghost ap = api;
            let seen = contains_string(&api.roots, p.root.as_str());
            proof {
                if seen {
                    let k = choose|k: int| 0 <= k < api.roots@.len() && (#[trigger] api.roots@[k])@ == p.root@;
                    assert(d[k].0 == p.root@);
                } else {
                    assert forall|k: int| 0 <= k < d.len() implies (#[trigger] d[k]).0 != p.root@ by {
                        assert(api.roots@[k]@ == d[k].0);
                    }
                }
            }
            if !seen {
                match &p.manifest {
                    None => {},
                    Some(manifest) => match entrypoint(p.root.as_str(), manifest.as_str()) {
                        None => {},
                        Some(entry) => {
                            let package = read_package(&p.files);
                            let found = exports(entry.as_str(), &package);
                            let ghost before = api.roots@;
                            let ghost entries_before = api.entrypoints@;
                            let ghost ex0 = api.exports@;
                            let mut k: usize = 0;
                            assert(export_views(api.exports@) =~= recorded_each(export_views(ex0), export_views(found.entries@), 0));
                            while k < found.entries.len()
                                invariant
                                    k <= found.entries@.len(),
                                    export_views(api.exports@) == recorded_each(
                                        export_views(ex0),
                                        export_views(found.entries@),
                                        k as int,
                                    ),
                                    distinct_keys(api.exports@),
                                    api.roots@ == before,
                                    api.entrypoints@ == entries_before,
                                    forall|q: int|
                                        0 <= q < api.exports@.len() ==> ex0.contains(#[trigger] api.exports@[q]) || reaches(
                                            package,
                                            seq![],
                                            normal(entry@),
                                            seq![],
                                            api.exports@[q].file@,
                                            api.exports@[q].name@,
                                            api.exports@[q].public@,
                                        ),
                                    forall|q: int|
                                        0 <= q < found.entries@.len() ==> reaches(
                                            package,
                                            seq![],
                                            normal(entry@),
                                            seq![],
                                            (#[trigger] found.entries@[q]).file@,
                                            found.entries@[q].name@,
                                            found.entries@[q].public@,
                                        ),
                                decreases found.entries@.len() - k,
                            {
                                let e = &found.entries[k];
                                let ghost mid = api.exports@;
                                let public = chars_of(e.public.as_str());
                                record(&mut api.exports, e.file.as_str(), e.name.as_str(), public);
                                proof {
                                    assert(found.entries() == found.entries@);
                                    assert forall|q: int| 0 <= q < api.exports@.len() implies ex0.contains(#[trigger] api.exports@[q]) || reaches(
                                        package,
                                        seq![],
                                        normal(entry@),
                                        seq![],
                                        api.exports@[q].file@,
                                        api.exports@[q].name@,
                                        api.exports@[q].public@,
                                    ) by {
                                        let x = api.exports@[q];
                                        if mid.contains(x) {
                                            let r = choose|r: int| 0 <= r < mid.len() && mid[r] == x;
                                            assert(ex0.contains(mid[r]) || reaches(package, seq![], normal(entry@), seq![], mid[r].file@, mid[r].name@, mid[r].public@));
                                        } else {
                                            assert(reaches(package, seq![], normal(entry@), seq![], found.entries@[k as int].file@, found.entries@[k as int].name@, found.entries@[k as int].public@));
                                        }
                                    }
                                }
                                k = k + 1;
                            }
                            let ghost ex1 = api.exports@;
                            let ghost old_pkgs = pkgs;
                            let ghost old_n = js.len() as int;
                            api.entrypoints.push(entry);
                            api.roots.push(copy_string(&p.root));
                            proof {
                                js = js.push(i as int);
                                pkgs = pkgs.push(package);
                                lemma_api_entries_prefix(old_pkgs, entries_before, pkgs, api.entrypoints@, old_n);
                                assert(found.entries() == found.entries@);
                                assert(api.entrypoints@[old_n] == entry);
                                assert(export_views(api.exports@) == api_entries(pkgs, api.entrypoints@, js.len() as int));
                                assert forall|kk: int| 0 <= kk < js.len() implies 0 <= #[trigger] js[kk] < packages@.len()
                                    && packages@[js[kk]].root@ == api.roots@[kk]@ && read_of(packages@[js[kk]].files@, pkgs[kk]) by {
                                    if kk < old_n {
                                        assert(api.roots@[kk] == before[kk]);
                                    }
                                }
                            }
                            proof {
                                let nk = before.len() as int;
                                assert(api.roots@[nk]@ == packages@[i as int].root@);
                                assert(read_of(packages@[i as int].files@, package));
                                assert forall|q: int| 0 <= q < api.exports@.len() implies from_package(
                                    packages@,
                                    api.roots@,
                                    api.entrypoints@,
                                    #[trigger] api.exports@[q],
                                ) by {
                                    let x = api.exports@[q];
                                    if ex0.contains(x) {
                                        let r = choose|r: int| 0 <= r < ex0.len() && ex0[r] == x;
                                        assert(from_package(packages@, before, entries_before, ex0[r]));
                                        let (j, kk, pk) = choose|j: int, kk: int, pk: Package|
                                            #![trigger read_of(packages@[j].files@, pk), before[kk]]
                                            0 <= j < packages@.len() && 0 <= kk < before.len() && kk < entries_before.len()
                                                && packages@[j].root@ == before[kk]@ && read_of(packages@[j].files@, pk)
                                                && reaches(pk, seq![], normal(entries_before[kk]@), seq![], x.file@, x.name@, x.public@);
                                        assert(api.roots@[kk] == before[kk]);
                                        assert(api.entrypoints@[kk] == entries_before[kk]);
                                    } else {
                                        assert(api.roots@[nk] == api.roots@[nk]);
                                        assert(api.entrypoints@[nk]@ == entry@);
                                    }
                                }
                            }
                            proof {
                                assert forall|a: int, b: int| 0 <= a < b < api.roots@.len() implies (#[trigger] api.roots@[a])@ != (#[trigger] api.roots@[b])@ by {
                                    assert(api.roots@[a] == before[a]);
                                    if b < before.len() {
                                        assert(api.roots@[b] == before[b]);
                                    }
                                }
                                assert forall|k: int| 0 <= k < api.roots@.len() implies root_given(packages@, (#[trigger] api.roots@[k])@) by {
                                    if k < before.len() {
                                        assert(api.roots@[k] == before[k]);
                                    } else {
                                        assert(packages@[i as int].root@ == api.roots@[k]@);
                                    }
                                }
                            }
                        },
                    },
                }
            }
            proof {
                let d2 = discovered(packages@, i + 1);
                if d2 == d {
                    assert forall|k: int| 0 <= k < api.roots@.len() implies (#[trigger] api.roots@[k])@ == d2[k].0
                        && api.entrypoints@[k]@ == d2[k].1 by {
                    }
                } else {
                    assert forall|k: int| 0 <= k < api.roots@.len() implies (#[trigger] api.roots@[k])@ == d2[k].0
                        && api.entrypoints@[k]@ == d2[k].1 by {
                        if k < d.len() {
                            assert(api.roots@[k] == ap.roots@[k]);
                            assert(api.entrypoints@[k] == ap.entrypoints@[k]);
                        }
                    }
                }
            }
            i = i + 1;
        }
        assert(export_views(api.entries()) == api_entries(pkgs, api.entry_points(), js.len() as int));
        api
    }

    /// Whether an entry point speaks for this file, and so whether its
    /// absence from the exports means anything. `file` is a resolved path,
    /// as the roots are.
    pub fn covers(&self, file: &str) -> (r: bool)
        ensures
            r == exists|k: int| 0 <= k < self.roots().len() && under((#[trigger] self.roots()[k])@, normal(file@)),
    {
        let f = normalize(&chars_of(file));
        let mut k: usize = 0;
        while k < self.roots.len()
            invariant
                k <= self.roots@.len(),
                f@ == normal(file@),
                forall|j: int| 0 <= j < k ==> !under((#[trigger] self.roots@[j])@, f@),
            decreases self.roots@.len() - k,
        {
            if under_exec(&chars_of(self.roots[k].as_str()), &f) {
                assert(self.roots()[k as int] == self.roots@[k as int]);
                return true;
            }
            k = k + 1;
        }
        false
    }

    /// The path a user imports this binding under. `file` is a resolved
    /// path, as the package's files are.
    pub fn public_name(&self, file: &str, name: &str) -> (r: Option<&String>)
        ensures
            match r {
                Some(p) => key_at(self.entries(), normal(file@), name@, self.entries().len() as int) matches Some(i)
                    && self.entries()[i].public@ == p@,
                None => key_at(self.entries(), normal(file@), name@, self.entries().len() as int) is None,
            },
    {
        let f = string_of(normalize(&chars_of(file)).as_slice());
        let mut n = self.exports.len();
        while n > 0
            invariant
                n <= self.exports@.len(),
                f@ == normal(file@),
                key_at(self.exports@, f@, name@, self.exports@.len() as int) == key_at(
                    self.exports@,
                    f@,
                    name@,
                    n as int,
                ),
            decreases n,
        {
            let e = &self.exports[n - 1];
            if str_eq(e.file.as_str(), f.as_str()) && str_eq(e.name.as_str(), name) {
                return Some(&e.public);
            }
            n = n - 1;
        }
        None
    }
}

} // verus!
