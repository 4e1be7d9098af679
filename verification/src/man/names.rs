//! Reading the words of a page: section titles, the NAME line, option
//! spellings, cross-references.

use vstd::prelude::*;

use crate::man::roff::is;
use crate::text::{
    chars_of, is_ws, is_whitespace, join, join_exec, push_chars, skip_ws, skip_ws_exec, slice_chars,
    trim, trim_chars,
};
use crate::typst::html::{find_exec, find_from, find_ws, lemma_find_from, lemma_find_ws};

verus! {

// -- section titles ---------------------------------------------------------------

/// Which field a section title routes to.
#[derive(Clone, Copy, PartialEq, Eq, Structural)]
pub enum Kind {
    Name,
    Synopsis,
    Description,
    Options,
    Value,
    Examples,
    SeeAlso,
    Note,
    Author,
    References,
    Other,
}

/// `char::to_ascii_uppercase`.
pub open spec fn ascii_upper(c: char) -> char {
    if 'a' <= c <= 'z' {
        (((c as u32) - 32) as u8) as char
    } else {
        c
    }
}

pub open spec fn upper_all(s: Seq<char>) -> Seq<char> {
    s.map_values(|c: char| ascii_upper(c))
}

fn upper_all_exec(s: &Vec<char>) -> (r: Vec<char>)
    ensures
        r@ == upper_all(s@),
{
    let mut out: Vec<char> = Vec::new();
    let mut i: usize = 0;
    while i < s.len()
        invariant
            i <= s.len(),
            out@ == upper_all(s@.subrange(0, i as int)),
        decreases s.len() - i,
    {
        let c = s[i];
        let u = if 'a' <= c && c <= 'z' {
            (((c as u32) - 32) as u8) as char
        } else {
            c
        };
        out.push(u);
        i = i + 1;
        assert(out@ =~= upper_all(s@.subrange(0, i as int)));
    }
    assert(s@.subrange(0, s.len() as int) =~= s@);
    out
}

/// Which field a section title routes to.
///
/// Man page section titles are a convention, not a vocabulary: matching is
/// therefore loose, and anything unrecognised keeps its own heading rather
/// than being forced into a field.
pub open spec fn kind_spec(title: Seq<char>) -> Kind {
    let t = upper_all(trim(title));
    if t == "NAME"@ {
        Kind::Name
    } else if t == "SYNOPSIS"@ || t == "SYNTAX"@ || t == "USAGE"@ {
        Kind::Synopsis
    } else if t == "DESCRIPTION"@ || t == "OVERVIEW"@ {
        Kind::Description
    } else if t == "RETURN VALUE"@ || t == "RETURN VALUES"@ || t == "EXIT STATUS"@ {
        Kind::Value
    } else if t == "EXAMPLE"@ || t == "EXAMPLES"@ {
        Kind::Examples
    } else if t == "SEE ALSO"@ {
        Kind::SeeAlso
    } else if t == "NOTE"@ || t == "NOTES"@ || t == "CAVEAT"@ || t == "CAVEATS"@ {
        Kind::Note
    } else if t == "AUTHOR"@ || t == "AUTHORS"@ || t == "REPORTING BUGS"@ {
        Kind::Author
    } else if t == "REFERENCE"@ || t == "REFERENCES"@ || t == "STANDARDS"@ {
        Kind::References
    } else if crate::text::ends_with(t, "OPTION"@) || crate::text::ends_with(t, "OPTIONS"@) {
        Kind::Options
    } else {
        Kind::Other
    }
}

pub(crate) fn kind(title: &Vec<char>) -> (r: Kind)
    ensures
        r == kind_spec(title@),
{
    let t = upper_all_exec(&trim_chars(title));
    if is(&t, "NAME") {
        Kind::Name
    } else if is(&t, "SYNOPSIS") || is(&t, "SYNTAX") || is(&t, "USAGE") {
        Kind::Synopsis
    } else if is(&t, "DESCRIPTION") || is(&t, "OVERVIEW") {
        Kind::Description
    } else if is(&t, "RETURN VALUE") || is(&t, "RETURN VALUES") || is(&t, "EXIT STATUS") {
        Kind::Value
    } else if is(&t, "EXAMPLE") || is(&t, "EXAMPLES") {
        Kind::Examples
    } else if is(&t, "SEE ALSO") {
        Kind::SeeAlso
    } else if is(&t, "NOTE") || is(&t, "NOTES") || is(&t, "CAVEAT") || is(&t, "CAVEATS") {
        Kind::Note
    } else if is(&t, "AUTHOR") || is(&t, "AUTHORS") || is(&t, "REPORTING BUGS") {
        Kind::Author
    } else if is(&t, "REFERENCE") || is(&t, "REFERENCES") || is(&t, "STANDARDS") {
        Kind::References
    } else if crate::text::ends_with_exec(&t, "OPTION") || crate::text::ends_with_exec(&t, "OPTIONS") {
        Kind::Options
    } else {
        Kind::Other
    }
}

// -- splitting --------------------------------------------------------------------

/// The pieces of `s` from `i`, split at every `c` (`str::split`), each
/// trimmed.
pub open spec fn trimmed_pieces(s: Seq<char>, c: char, i: int) -> Seq<Seq<char>>
    decreases s.len() - i,
{
    if i < 0 || i > s.len() {
        seq![]
    } else {
        let k = find_from(s, c, i);
        proof {
            lemma_find_from(s, c, i);
        }
        if k >= s.len() {
            seq![trim(s.subrange(i, s.len() as int))]
        } else {
            seq![trim(s.subrange(i, k))] + trimmed_pieces(s, c, k + 1)
        }
    }
}

/// The non-empty ones of `parts`.
pub open spec fn nonempty(parts: Seq<Seq<char>>) -> Seq<Seq<char>>
    decreases parts.len(),
{
    if parts.len() == 0 {
        seq![]
    } else if parts.last().len() > 0 {
        nonempty(parts.drop_last()).push(parts.last())
    } else {
        nonempty(parts.drop_last())
    }
}

pub(crate) fn trimmed_pieces_exec(s: &Vec<char>, c: char) -> (r: Vec<Vec<char>>)
    ensures
        crate::text::char_views(r@) == trimmed_pieces(s@, c, 0),
{
    let mut out: Vec<Vec<char>> = Vec::new();
    let mut i: usize = 0;
    loop
        invariant
            i <= s.len(),
            trimmed_pieces(s@, c, 0) == crate::text::char_views(out@) + trimmed_pieces(
                s@,
                c,
                i as int,
            ),
        decreases s.len() - i,
    {
        let k = find_exec(s, c, i);
        proof {
            lemma_find_from(s@, c, i as int);
        }
        let ghost before = out@;
        let piece = trim_chars(&slice_chars(s, i, k));
        out.push(piece);
        assert(crate::text::char_views(out@) =~= crate::text::char_views(before).push(piece@));
        if k >= s.len() {
            assert(trimmed_pieces(s@, c, i as int) =~= seq![piece@]);
            assert(crate::text::char_views(out@) =~= crate::text::char_views(before) + seq![piece@]);
            return out;
        }
        i = k + 1;
    }
}

pub(crate) fn nonempty_exec(parts: Vec<Vec<char>>) -> (r: Vec<Vec<char>>)
    ensures
        crate::text::char_views(r@) == nonempty(crate::text::char_views(parts@)),
{
    let ghost all = crate::text::char_views(parts@);
    let mut out: Vec<Vec<char>> = Vec::new();
    let mut rest = parts;
    let mut i: usize = 0;
    let n = rest.len();
    assert(all.len() == n);
    while rest.len() > 0
        invariant
            i + rest@.len() == all.len(),
            all.len() <= usize::MAX,
            crate::text::char_views(rest@) == all.subrange(i as int, all.len() as int),
            crate::text::char_views(out@) == nonempty(all.subrange(0, i as int)),
        decreases rest.len(),
    {
        let ghost old_rest = rest@;
        let piece = rest.remove(0);
        assert(crate::text::char_views(old_rest)[0] == all[i as int]);
        assert(piece@ == all[i as int]);
        assert(all.subrange(0, i + 1).drop_last() =~= all.subrange(0, i as int));
        let ghost before = out@;
        if piece.len() > 0 {
            out.push(piece);
            assert(crate::text::char_views(out@) =~= crate::text::char_views(before).push(all[i as int]));
        }
        assert(rest@ =~= old_rest.subrange(1, old_rest.len() as int));
        assert forall|j: int| 0 <= j < rest@.len() implies crate::text::char_views(rest@)[j] == all[i
            + 1 + j] by {
            assert(rest@[j] == old_rest[j + 1]);
            assert(crate::text::char_views(old_rest)[j + 1] == all[i + j + 1]);
        }
        assert(crate::text::char_views(rest@) =~= all.subrange(i + 1, all.len() as int));
        i = i + 1;
    }
    assert(all.subrange(0, i as int) =~= all);
    out
}

/// Where `pat` first occurs in `s` at or after `i`.
pub open spec fn find_sub(s: Seq<char>, pat: Seq<char>, i: int) -> Option<int>
    decreases s.len() + 1 - i,
{
    if i < 0 || i + pat.len() > s.len() {
        None
    } else if s.subrange(i, i + pat.len()) == pat {
        Some(i)
    } else {
        find_sub(s, pat, i + 1)
    }
}

pub proof fn lemma_find_sub(s: Seq<char>, pat: Seq<char>, i: int)
    requires
        0 <= i,
    ensures
        find_sub(s, pat, i) is Some ==> i <= find_sub(s, pat, i)->0 && find_sub(s, pat, i)->0 + pat.len()
            <= s.len(),
    decreases s.len() + 1 - i,
{
    if i + pat.len() <= s.len() && s.subrange(i, i + pat.len()) != pat {
        lemma_find_sub(s, pat, i + 1);
    }
}

pub(crate) fn find_sub_exec(s: &Vec<char>, pat: &Vec<char>) -> (r: Option<usize>)
    ensures
        match r {
            Some(k) => find_sub(s@, pat@, 0) == Some(k as int),
            None => find_sub(s@, pat@, 0) is None,
        },
{
    if pat.len() > s.len() {
        return None;
    }
    let last = s.len() - pat.len();
    let mut i: usize = 0;
    loop
        invariant
            pat.len() <= s.len(),
            last == s.len() - pat.len(),
            i <= last,
            find_sub(s@, pat@, 0) == find_sub(s@, pat@, i as int),
        decreases last - i,
    {
        let window = slice_chars(s, i, i + pat.len());
        if crate::text::seq_eq(&window, pat) {
            return Some(i);
        }
        if i == last {
            assert(find_sub(s@, pat@, i + 1) is None);
            return None;
        }
        i = i + 1;
    }
}

/// The names and the summary of a NAME line: `ls, dir \- list directory
/// contents`, split at ` - ` (or an em dash).
pub open spec fn name_parts(text: Seq<char>) -> (Seq<char>, Seq<char>) {
    match find_sub(text, " - "@, 0) {
        Some(k) => (text.subrange(0, k), text.subrange(k + 3, text.len() as int)),
        None => match find_sub(text, " \u{2014} "@, 0) {
            Some(k) => (text.subrange(0, k), text.subrange(k + 3, text.len() as int)),
            None => (text, seq![]),
        },
    }
}

/// `ls, dir \- list directory contents` splits into names and a summary.
pub open spec fn split_name_spec(text: Seq<char>) -> (Seq<Seq<char>>, Seq<char>) {
    let (names, summary) = name_parts(text);
    (nonempty(trimmed_pieces(names, ',', 0)), trim(summary))
}

pub(crate) fn split_name(text: &Vec<char>) -> (r: (Vec<Vec<char>>, Vec<char>))
    ensures
        (crate::text::char_views(r.0@), r.1@) == split_name_spec(text@),
{
    let dash = chars_of(" - ");
    let em = chars_of(" \u{2014} ");
    proof {
        reveal_strlit(" - ");
        reveal_strlit(" \u{2014} ");
        lemma_find_sub(text@, dash@, 0);
        lemma_find_sub(text@, em@, 0);
        assert(dash@.len() == 3);
        assert(em@.len() == 3);
    }
    let (names, summary) = match find_sub_exec(text, &dash) {
        Some(k) => {
            assert(k + 3 <= text.len());
            (slice_chars(text, 0, k), slice_chars(text, k + 3, text.len()))
        },
        None => match find_sub_exec(text, &em) {
            Some(k) => {
                assert(k + 3 <= text.len());
                (slice_chars(text, 0, k), slice_chars(text, k + 3, text.len()))
            },
            None => (slice_chars(text, 0, text.len()), Vec::new()),
        },
    };
    assert(text@.subrange(0, text.len() as int) =~= text@);
    let pieces = trimmed_pieces_exec(&names, ',');
    (nonempty_exec(pieces), trim_chars(&summary))
}

/// The names of an option term: `-a, --all` documents two spellings of one
/// option, the way Rd's `\item{x, y}` documents two arguments.
pub open spec fn option_names(text: Seq<char>) -> Seq<Seq<char>> {
    let parts = trimmed_pieces(text, ',', 0);
    if parts.len() > 1 && forall|i: int| 0 <= i < parts.len() ==> #[trigger] starts_dash(parts[i]) {
        parts
    } else {
        seq![trim(text)]
    }
}

pub open spec fn starts_dash(s: Seq<char>) -> bool {
    s.len() > 0 && s[0] == '-'
}

pub(crate) fn option_names_exec(text: &Vec<char>) -> (r: Vec<Vec<char>>)
    ensures
        crate::text::char_views(r@) == option_names(text@),
{
    let parts = trimmed_pieces_exec(text, ',');
    let ghost ps = crate::text::char_views(parts@);
    if parts.len() > 1 {
        let mut all = true;
        let mut i: usize = 0;
        while i < parts.len()
            invariant
                i <= parts.len(),
                ps == crate::text::char_views(parts@),
                all == forall|j: int| 0 <= j < i ==> #[trigger] starts_dash(ps[j]),
            decreases parts.len() - i,
        {
            let ok = parts[i].len() > 0 && parts[i][0] == '-';
            assert(ok == starts_dash(ps[i as int]));
            if !ok {
                all = false;
            }
            i = i + 1;
        }
        if all {
            return parts;
        }
    }
    let mut out: Vec<Vec<char>> = Vec::new();
    out.push(trim_chars(text));
    assert(crate::text::char_views(out@) =~= seq![trim(text@)]);
    out
}

// -- cross-references -------------------------------------------------------------

/// The characters a page name is made of.
pub open spec fn name_char(c: char) -> bool {
    crate::text::alphanumeric(c) || c == '_' || c == '-' || c == '.' || c == ':' || c == '+'
}

/// The text of a single unadorned page name: non-empty, and nothing but
/// name characters.
pub open spec fn page_name(text: Seq<char>) -> Option<Seq<char>> {
    let t = trim(text);
    if t.len() > 0 && forall|i: int| 0 <= i < t.len() ==> #[trigger] name_char(t[i]) {
        Some(t)
    } else {
        None
    }
}

pub(crate) fn page_name_exec(text: &Vec<char>) -> (r: Option<Vec<char>>)
    ensures
        match r {
            Some(v) => page_name(text@) == Some(v@),
            None => page_name(text@) is None,
        },
{
    let t = trim_chars(text);
    if t.len() == 0 {
        return None;
    }
    let mut i: usize = 0;
    while i < t.len()
        invariant
            i <= t.len(),
            t@ == trim(text@),
            t.len() > 0,
            forall|j: int| 0 <= j < i ==> #[trigger] name_char(t@[j]),
        decreases t.len() - i,
    {
        let c = t[i];
        if !(crate::text::is_alphanumeric(c) || c == '_' || c == '-' || c == '.' || c == ':' || c
            == '+') {
            assert(!name_char(t@[i as int]));
            return None;
        }
        i = i + 1;
    }
    Some(t)
}

/// Whether text opens with a manual section number: `(1)`, `(3p)`.
pub open spec fn section_prefix(text: Seq<char>) -> bool {
    text.len() > 0 && text[0] == '(' && {
        let k = find_from(text, ')', 1);
        let inner = text.subrange(1, k);
        k < text.len() && inner.len() > 0 && '0' <= inner[0] <= '9' && forall|i: int|
            0 <= i < inner.len() ==> #[trigger] ascii_alnum(inner[i])
    }
}

pub open spec fn ascii_alnum(c: char) -> bool {
    ('0' <= c <= '9') || ('a' <= c <= 'z') || ('A' <= c <= 'Z')
}

pub(crate) fn section_prefix_exec(text: &Vec<char>) -> (r: bool)
    ensures
        r == section_prefix(text@),
{
    if text.len() == 0 || text[0] != '(' {
        return false;
    }
    let k = find_exec(text, ')', 1);
    proof {
        lemma_find_from(text@, ')', 1);
    }
    if k >= text.len() || k == 1 {
        return false;
    }
    let ghost inner = text@.subrange(1, k as int);
    if !('0' <= text[1] && text[1] <= '9') {
        return false;
    }
    let mut i: usize = 1;
    while i < k
        invariant
            1 <= i <= k < text.len(),
            text@[0] == '(',
            k == find_from(text@, ')', 1),
            k > 1,
            '0' <= text@[1] <= '9',
            inner == text@.subrange(1, k as int),
            forall|j: int| 0 <= j < i - 1 ==> #[trigger] ascii_alnum(inner[j]),
        decreases k - i,
    {
        let c = text[i];
        if !(('0' <= c && c <= '9') || ('a' <= c && c <= 'z') || ('A' <= c && c <= 'Z')) {
            assert(!ascii_alnum(inner[i - 1]));
            return false;
        }
        i = i + 1;
    }
    true
}

// -- headings ---------------------------------------------------------------------

/// What `char::to_uppercase` gives for `c`: one or more characters, by
/// Unicode's case mapping.
pub uninterp spec fn uppercase(c: char) -> Seq<char>;

/// What `str::to_lowercase` gives for `s`, by Unicode's case mapping.
pub uninterp spec fn lowercase(s: Seq<char>) -> Seq<char>;

/// `char::to_uppercase`, collected.
#[verifier::external_body]
fn to_uppercase(c: char) -> (r: Vec<char>)
    ensures
        r@ == uppercase(c),
{
    c.to_uppercase().collect()
}

/// `str::to_lowercase`.
#[verifier::external_body]
pub(crate) fn to_lowercase(s: &Vec<char>) -> (r: Vec<char>)
    ensures
        r@ == lowercase(s@),
{
    let text: String = s.iter().collect();
    text.to_lowercase().chars().collect()
}

/// The whitespace-separated words of `s` from `i` (`str::split_whitespace`).
pub open spec fn words_from(s: Seq<char>, i: int) -> Seq<Seq<char>>
    decreases s.len() - i,
{
    if i < 0 || i >= s.len() {
        seq![]
    } else {
        let a = skip_ws(s, i);
        proof {
            crate::text::lemma_skip_ws(s, i);
        }
        if a >= s.len() {
            seq![]
        } else {
            let b = find_ws(s, a);
            proof {
                lemma_find_ws(s, a);
            }
            seq![s.subrange(a, b)] + words_from(s, b)
        }
    }
}

pub open spec fn capitalized(w: Seq<char>) -> Seq<char> {
    if w.len() == 0 {
        seq![]
    } else {
        uppercase(w[0]) + lowercase(w.drop_first())
    }
}

/// `SEE ALSO` reads as shouting in a proportional font; the writer's other
/// headings are title case.
pub open spec fn title_case_spec(title: Seq<char>) -> Seq<char> {
    join(capitalize_all(words_from(title, 0)), " "@)
}

pub open spec fn capitalize_all(words: Seq<Seq<char>>) -> Seq<Seq<char>> {
    words.map_values(|w: Seq<char>| capitalized(w))
}

pub(crate) fn find_ws_from(s: &Vec<char>, i: usize) -> (r: usize)
    requires
        i <= s.len(),
    ensures
        r == find_ws(s@, i as int),
{
    let mut k = i;
    while k < s.len() && !is_whitespace(s[k])
        invariant
            i <= k <= s.len(),
            find_ws(s@, i as int) == find_ws(s@, k as int),
        decreases s.len() - k,
    {
        k = k + 1;
    }
    k
}

pub(crate) fn title_case(title: &Vec<char>) -> (r: Vec<char>)
    ensures
        r@ == title_case_spec(title@),
{
    let mut words: Vec<Vec<char>> = Vec::new();
    let ghost mut raw: Seq<Seq<char>> = seq![];
    let mut i: usize = 0;
    loop
        invariant
            i <= title.len(),
            words_from(title@, 0) == raw + words_from(title@, i as int),
            crate::text::char_views(words@) == capitalize_all(raw),
        decreases title.len() - i,
    {
        let a = skip_ws_exec(title, i);
        proof {
            crate::text::lemma_skip_ws(title@, i as int);
        }
        if a >= title.len() {
            assert(words_from(title@, i as int) =~= Seq::<Seq<char>>::empty());
            assert(raw =~= words_from(title@, 0));
            let r = join_exec(&words, " ");
            assert(raw == words_from(title@, 0));
            assert(crate::text::char_views(words@) == capitalize_all(raw));
            assert(crate::text::char_views(words@) == capitalize_all(words_from(title@, 0)));
            assert(r@ == join(capitalize_all(words_from(title@, 0)), " "@));
            return r;
        }
        let b = find_ws_from(title, a);
        proof {
            lemma_find_ws(title@, a as int);
        }
        assert(b > a);
        let w = slice_chars(title, a, b);
        let mut cap = to_uppercase(w[0]);
        let tail = slice_chars(&w, 1, w.len());
        assert(tail@ =~= w@.drop_first());
        push_chars(&mut cap, &to_lowercase(&tail));
        assert(cap@ == capitalized(w@));
        let ghost before = words@;
        words.push(cap);
        proof {
            let old_raw = raw;
            raw = raw.push(w@);
            assert(words_from(title@, a as int) == words_from(title@, i as int));
            assert(capitalize_all(raw) =~= capitalize_all(old_raw).push(capitalized(w@)));
            assert(crate::text::char_views(words@) =~= crate::text::char_views(before).push(cap@));
        }
        i = b;
    }
}

/// `str::split_whitespace`, collected.
pub(crate) fn words_exec(s: &Vec<char>) -> (r: Vec<Vec<char>>)
    ensures
        crate::text::char_views(r@) == words_from(s@, 0),
{
    let mut words: Vec<Vec<char>> = Vec::new();
    let mut i: usize = 0;
    loop
        invariant
            i <= s.len(),
            words_from(s@, 0) == crate::text::char_views(words@) + words_from(s@, i as int),
        decreases s.len() - i,
    {
        let a = skip_ws_exec(s, i);
        proof {
            crate::text::lemma_skip_ws(s@, i as int);
        }
        if a >= s.len() {
            assert(words_from(s@, i as int) =~= Seq::<Seq<char>>::empty());
            assert(crate::text::char_views(words@) + Seq::<Seq<char>>::empty() =~= crate::text::char_views(words@));
            return words;
        }
        let b = find_ws_from(s, a);
        proof {
            lemma_find_ws(s@, a as int);
        }
        assert(b > a);
        let w = slice_chars(s, a, b);
        let ghost before = words@;
        words.push(w);
        assert(crate::text::char_views(words@) =~= crate::text::char_views(before) + seq![w@]);
        i = b;
    }
}

} // verus!
