//! The reader-agnostic documentation model.
//!
//! One [`Topic`] is one documented entity: an Rd file, a Python function,
//! class, or module, a Typst definition, or a manual page. Readers fill in
//! what their source expresses and leave the rest empty; no field is required
//! beyond `name`.

use vstd::prelude::*;

use super::block::{blocks_v, Block, BlockV};
use super::inline::{inlines_v, Inline, InlineV};
use crate::text::{chars_of, owned, str_eq};

verus! {

/// One documented parameter.
///
/// `names` is a list because Rd's `\item{x, y}{..}` and numpydoc's `x, y : int`
/// both document several parameters with one description.
#[derive(Debug, PartialEq, Eq)]
pub struct Param {
    pub names: Vec<String>,
    /// A type annotation. Always `None` from Rd; usually `Some` from numpydoc.
    pub ty: Option<String>,
    pub default: Option<String>,
    pub optional: bool,
    pub body: Vec<Block>,
}

/// A worked example.
#[derive(Debug, Clone, PartialEq, Eq)]
pub struct Example {
    pub code: String,
    /// Whether the source marked this as not to be run: `\dontrun{}`.
    pub run: bool,
}

/// A section with no dedicated field: `\section{}`, or an unrecognised
/// docstring heading.
#[derive(Debug, PartialEq, Eq)]
pub struct Section {
    pub title: Vec<Inline>,
    pub body: Vec<Block>,
}

/// A single documented entity.
#[derive(Debug, PartialEq, Eq)]
pub struct Topic {
    /// The primary identifier: `\name`, or the qualified Python name.
    pub name: String,
    pub title: Vec<Inline>,
    /// Alternative names this topic is reachable under: `\alias`.
    pub aliases: Vec<String>,
    pub keywords: Vec<String>,
    /// How the entity is called: `\usage`, or a Python signature.
    pub signature: Option<String>,
    /// The source language, which code fences are highlighted as.
    pub lang: Option<String>,
    pub description: Vec<Block>,
    pub details: Vec<Block>,
    /// `\arguments`, or the Parameters section.
    pub params: Vec<Param>,
    /// `\value`, or the Returns section.
    pub value: Vec<Block>,
    /// Exceptions the entity may raise. Empty from Rd.
    pub raises: Vec<Param>,
    pub examples: Vec<Example>,
    pub seealso: Vec<Block>,
    pub references: Vec<Block>,
    pub note: Vec<Block>,
    pub author: Vec<Block>,
    /// Sections in source order that have no dedicated field above.
    pub sections: Vec<Section>,
}

impl Default for Param {
    fn default() -> (r: Param)
        ensures
            r.names@.len() == 0,
            r.ty is None,
            r.default is None,
            !r.optional,
            r.body@.len() == 0,
    {
        Param { names: Vec::new(), ty: None, default: None, optional: false, body: Vec::new() }
    }
}

/// What a parameter holds, with its text as characters.
pub struct ParamV {
    pub names: Seq<Seq<char>>,
    pub ty: Option<Seq<char>>,
    pub default: Option<Seq<char>>,
    pub optional: bool,
    pub body: Seq<BlockV>,
}

/// The characters of an optional string.
pub open spec fn opt_chars(o: Option<String>) -> Option<Seq<char>> {
    match o {
        Some(s) => Some(s@),
        None => None,
    }
}

/// The characters of some strings.
pub open spec fn names_v(s: Seq<String>) -> Seq<Seq<char>> {
    s.map_values(|x: String| x@)
}

/// A parameter's value.
pub open spec fn param_v(p: Param) -> ParamV {
    ParamV {
        names: names_v(p.names@),
        ty: opt_chars(p.ty),
        default: opt_chars(p.default),
        optional: p.optional,
        body: blocks_v(p.body@),
    }
}

/// The values of some parameters.
pub open spec fn params_v(s: Seq<Param>) -> Seq<ParamV> {
    s.map_values(|p: Param| param_v(p))
}

/// The values of some examples: code and whether to run it.
pub open spec fn examples_v(s: Seq<Example>) -> Seq<(Seq<char>, bool)> {
    Seq::new(s.len(), |k: int| (s[k].code@, s[k].run))
}

/// A section's value: its title and its body.
pub type SectionV = (Seq<InlineV>, Seq<BlockV>);

/// The values of some sections.
pub open spec fn sections_v(s: Seq<Section>) -> Seq<SectionV> {
    Seq::new(s.len(), |k: int| (inlines_v(s[k].title@), blocks_v(s[k].body@)))
}

/// Whether a topic holds nothing but its name.
pub open spec fn is_bare(topic: Topic) -> bool {
    &&& topic.title@.len() == 0
    &&& topic.aliases@.len() == 0
    &&& topic.keywords@.len() == 0
    &&& topic.signature is None
    &&& topic.lang is None
    &&& topic.description@.len() == 0
    &&& topic.details@.len() == 0
    &&& topic.params@.len() == 0
    &&& topic.value@.len() == 0
    &&& topic.raises@.len() == 0
    &&& topic.examples@.len() == 0
    &&& topic.seealso@.len() == 0
    &&& topic.references@.len() == 0
    &&& topic.note@.len() == 0
    &&& topic.author@.len() == 0
    &&& topic.sections@.len() == 0
}

impl Default for Topic {
    fn default() -> (r: Topic)
        ensures
            r.name@.len() == 0,
            is_bare(r),
    {
        Topic {
            name: String::new(),
            title: Vec::new(),
            aliases: Vec::new(),
            keywords: Vec::new(),
            signature: None,
            lang: None,
            description: Vec::new(),
            details: Vec::new(),
            params: Vec::new(),
            value: Vec::new(),
            raises: Vec::new(),
            examples: Vec::new(),
            seealso: Vec::new(),
            references: Vec::new(),
            note: Vec::new(),
            author: Vec::new(),
            sections: Vec::new(),
        }
    }
}

/// The index just past the dot-separated segment of `name` starting at `start`.
pub open spec fn segment_end(name: Seq<char>, start: int) -> int
    decreases name.len() - start,
{
    if start >= name.len() || name[start] == '.' {
        start
    } else {
        segment_end(name, start + 1)
    }
}

/// `__init__` and its kind: special methods, public by convention.
pub open spec fn is_dunder(segment: Seq<char>) -> bool {
    &&& segment.len() >= 4
    &&& segment[0] == '_' && segment[1] == '_'
    &&& segment[segment.len() - 2] == '_' && segment[segment.len() - 1] == '_'
}

/// Whether a segment of a dotted name begins at `start` and is private:
/// `_`-prefixed and not a dunder.
pub open spec fn private_segment_at(name: Seq<char>, start: int) -> bool {
    &&& 0 <= start < name.len()
    &&& (start == 0 || name[start - 1] == '.')
    &&& name[start] == '_'
    &&& !is_dunder(name.subrange(start, segment_end(name, start)))
}

/// The internal signal, per source: a `internal` keyword (Rd's
/// `\keyword{internal}`), or, for Python, a private segment anywhere in the
/// qualified name. A man page's `_exit` is public: only Python reads names.
pub open spec fn spec_is_internal(topic: Topic) -> bool {
    ||| exists|k: int| 0 <= k < topic.keywords@.len() && #[trigger] topic.keywords@[k]@ == "internal"@
    ||| (topic.lang matches Some(lang) && lang@ == "python"@
        && exists|s: int| #[trigger] private_segment_at(topic.name@, s))
}

proof fn lemma_segment_end_bounds(name: Seq<char>, start: int)
    requires
        0 <= start <= name.len(),
    ensures
        start <= segment_end(name, start) <= name.len(),
        forall|k: int| start <= k < segment_end(name, start) ==> name[k] != '.',
        segment_end(name, start) < name.len() ==> name[segment_end(name, start)] == '.',
    decreases name.len() - start,
{
    if start < name.len() && name[start] != '.' {
        lemma_segment_end_bounds(name, start + 1);
    }
}

fn segment_end_exec(name: &Vec<char>, start: usize) -> (r: usize)
    requires
        start <= name.len(),
    ensures
        r == segment_end(name@, start as int),
{
    let mut k = start;
    while k < name.len() && name[k] != '.'
        invariant
            start <= k <= name.len(),
            segment_end(name@, start as int) == segment_end(name@, k as int),
        decreases name.len() - k,
    {
        k = k + 1;
    }
    k
}

fn dunder_exec(name: &Vec<char>, start: usize, end: usize) -> (r: bool)
    requires
        start <= end <= name.len(),
    ensures
        r == is_dunder(name@.subrange(start as int, end as int)),
{
    end - start >= 4 && name[start] == '_' && name[start + 1] == '_' && name[end - 2] == '_'
        && name[end - 1] == '_'
}

fn has_private_segment(name: &Vec<char>) -> (r: bool)
    ensures
        r == exists|s: int| #[trigger] private_segment_at(name@, s),
{
    let mut j: usize = 0;
    while j < name.len()
        invariant
            j <= name.len(),
            j == 0 || name@[j - 1] == '.',
            forall|s: int| 0 <= s < j ==> !#[trigger] private_segment_at(name@, s),
        decreases name.len() - j,
    {
        let e = segment_end_exec(name, j);
        proof {
            lemma_segment_end_bounds(name@, j as int);
        }
        if name[j] == '_' && !dunder_exec(name, j, e) {
            assert(private_segment_at(name@, j as int));
            return true;
        }
        assert forall|s: int| 0 <= s < e + 1 && s <= name.len() implies !#[trigger] private_segment_at(
            name@,
            s,
        ) by {
            if j < s <= e && s < name.len() {
                assert(name@[s - 1] != '.');
            }
        }
        if e == name.len() {
            return false;
        }
        j = e + 1;
    }
    false
}

impl Topic {
    /// A topic with nothing but its name.
    pub fn new(name: &str) -> (r: Topic)
        ensures
            r.name@ == name@,
            is_bare(r),
    {
        let mut topic = Topic::default();
        topic.name = owned(name);
        topic
    }

    /// Whether the topic is internal by its source's own signal: an
    /// `internal` keyword, or for Python a `_`-prefixed segment of its
    /// qualified name other than a dunder.
    pub fn is_internal(&self) -> (r: bool)
        ensures
            r == spec_is_internal(*self),
    {
        let mut i: usize = 0;
        while i < self.keywords.len()
            invariant
                i <= self.keywords.len(),
                forall|k: int| 0 <= k < i ==> self.keywords@[k]@ != "internal"@,
            decreases self.keywords.len() - i,
        {
            if str_eq(self.keywords[i].as_str(), "internal") {
                return true;
            }
            i = i + 1;
        }
        match &self.lang {
            Some(lang) => {
                if str_eq(lang.as_str(), "python") {
                    let name = chars_of(self.name.as_str());
                    has_private_segment(&name)
                } else {
                    false
                }
            },
            None => false,
        }
    }
}

} // verus!
