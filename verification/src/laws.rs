//! What holds of the library as a whole: properties that relate several
//! functions, or hold of every input, stated over the same spec functions
//! the functions' own contracts use.

use vstd::prelude::*;

use crate::manual::{
    all_labels, all_refs, candidate, candidates, dash, decimal, digit, distinct, first_depth,
    group_paths, group_slugs, sanitized, slug_of, unresolved,
};
use crate::r::{names_format, target_spec};
use crate::typst::escape::{
    always_special, digit_run, escape, escaped_hyphens, hyphen_run, is_digit, line_start_special,
    lemma_digit_run_bound, lemma_hyphen_run_bound, opens_comment, string_body, string_char,
    string_literal,
};
use crate::typst::spec::{is_label_safe, label_for, lookup_spec};
use crate::typst::escape::indent;
use crate::ir::inline::plain_text;
use crate::ir::Inline;
use crate::manual::{deepest, entry_names, labels_of, shared, stem_parts};
use crate::ir::Topic;
use crate::typst::{ctx_of, template_text, Entry, Options, ParamsFormat};
use crate::ir::Block;
use crate::text::join;
use crate::typst::spec::{
    code_span, custom_sections, data_block, data_block_lines, document, iso_inline, prose_entry, section_entries,
    sections_array, topic_math, Ctx,
};
use crate::typst::escape::string_array;
use crate::typst::spec::{w_link, St};
use crate::ir::LinkDest;

verus! {

// -- file names -----------------------------------------------------------------------

/// A sanitized name holds no path separator, so a file named by it stays in
/// the directory it is written to.
pub proof fn law_sanitized_names_stay_in_their_directory(name: Seq<char>)
    ensures
        forall|i: int| 0 <= i < sanitized(name).len() ==> #[trigger] sanitized(name)[i] != '/'
            && sanitized(name)[i] != '\\',
        sanitized(name).len() == name.len(),
{
}

// -- references ---------------------------------------------------------------------

/// Every reference reported as dangling is one a document makes, and no
/// document of the run defines a label it could resolve to; every
/// reference whose target no document defines is reported.
pub proof fn law_dangling_means_undefined(
    refs: Seq<(Seq<char>, Seq<char>)>,
    labels: Seq<Seq<char>>,
)
    ensures
        forall|k: int| 0 <= k < unresolved(refs, labels).len() ==> refs.contains(
            #[trigger] unresolved(refs, labels)[k],
        ) && !labels.contains(unresolved(refs, labels)[k].1),
        forall|j: int| 0 <= j < refs.len() && !labels.contains(#[trigger] refs[j].1) ==> unresolved(
            refs,
            labels,
        ).contains(refs[j]),
    decreases refs.len(),
{
    if refs.len() > 0 {
        let rest = refs.drop_last();
        law_dangling_means_undefined(rest, labels);
        let u = unresolved(refs, labels);
        let ur = unresolved(rest, labels);
        assert forall|k: int| 0 <= k < u.len() implies refs.contains(#[trigger] u[k]) && !labels.contains(u[k].1) by {
            if k < ur.len() {
                assert(u[k] == ur[k]);
                let j = choose|j: int| 0 <= j < rest.len() && rest[j] == ur[k];
                assert(refs[j] == rest[j]);
            } else {
                assert(u[k] == refs.last());
                assert(refs[refs.len() - 1] == refs.last());
            }
        }
        assert forall|j: int| 0 <= j < refs.len() && !labels.contains(#[trigger] refs[j].1) implies u.contains(refs[j]) by {
            if j < refs.len() - 1 {
                assert(rest[j] == refs[j]);
                let k = choose|k: int| 0 <= k < ur.len() && ur[k] == rest[j];
                assert(u[k] == ur[k]);
            } else {
                assert(u[u.len() - 1] == refs.last());
            }
        }
    }
}

/// A link resolves in the referring topic's own scope first: where the scope
/// has a label Typst can spell for the name, that label is the one linked,
/// whatever the run-wide map says.
pub proof fn law_scope_resolves_first(
    name: Seq<char>,
    scope: Seq<(String, String)>,
    run: Seq<(String, String)>,
    label: Seq<char>,
)
    requires
        lookup_spec(scope, name) == Some(label),
        is_label_safe(label),
    ensures
        label_for(name, (Some(scope), run)) == Some(label),
{
}

/// A link to a name neither the scope nor the run defines addresses no
/// label, and so renders as plain code rather than as a link Typst would
/// refuse.
pub proof fn law_unknown_targets_are_not_linked(
    name: Seq<char>,
    scope: Option<Seq<(String, String)>>,
    run: Seq<(String, String)>,
)
    requires
        scope matches Some(s) ==> lookup_spec(s, name) is None,
        lookup_spec(run, name) is None,
    ensures
        label_for(name, (scope, run)) is None,
{
}

// -- Rd conditionals ----------------------------------------------------------------

/// A condition naming every target, or none this writer knows, is no
/// reason to guard content: it picks out no target.
pub proof fn law_conditions_on_every_target_are_not_guards(condition: Seq<char>)
    ensures
        (names_format(crate::r::split_on(condition, ','), "html"@) && (names_format(
            crate::r::split_on(condition, ','),
            "latex"@,
        ) || names_format(crate::r::split_on(condition, ','), "text"@))) ==> target_spec(condition)
            is None,
        (!names_format(crate::r::split_on(condition, ','), "html"@) && !names_format(
            crate::r::split_on(condition, ','),
            "latex"@,
        ) && !names_format(crate::r::split_on(condition, ','), "text"@)) ==> target_spec(condition)
            is None,
{
}

// -- escaping -----------------------------------------------------------------------

/// Markup with each backslash escape undone: a backslash and the character
/// after it stand for that character.
pub open spec fn unescape_markup(t: Seq<char>) -> Seq<char>
    decreases t.len(),
{
    if t.len() == 0 {
        t
    } else if t[0] == '\\' && t.len() >= 2 {
        seq![t[1]] + unescape_markup(t.subrange(2, t.len() as int))
    } else {
        seq![t[0]] + unescape_markup(t.subrange(1, t.len() as int))
    }
}

proof fn lemma_unescape_plain(p: Seq<char>, t: Seq<char>)
    requires
        forall|k: int| 0 <= k < p.len() ==> p[k] != '\\',
    ensures
        unescape_markup(p + t) == p + unescape_markup(t),
    decreases p.len(),
{
    if p.len() > 0 {
        let rest = p.subrange(1, p.len() as int);
        lemma_unescape_plain(rest, t);
        assert((p + t).subrange(1, (p + t).len() as int) =~= rest + t);
        assert(p =~= seq![p[0]] + rest);
        assert(seq![p[0]] + (rest + unescape_markup(t)) =~= p + unescape_markup(t));
    }
}

proof fn lemma_unescape_pair(c: char, t: Seq<char>)
    ensures
        unescape_markup(seq!['\\', c] + t) == seq![c] + unescape_markup(t),
{
    let u = seq!['\\', c] + t;
    assert(u.subrange(2, u.len() as int) =~= t);
}

proof fn lemma_unescape_char(c: char, t: Seq<char>)
    requires
        c != '\\',
    ensures
        unescape_markup(seq![c] + t) == seq![c] + unescape_markup(t),
{
    let u = seq![c] + t;
    assert(u.subrange(1, u.len() as int) =~= t);
}

proof fn lemma_unescape_hyphens(n: nat, t: Seq<char>)
    ensures
        unescape_markup(escaped_hyphens(n) + t) == Seq::new(n, |k: int| '-') + unescape_markup(t),
    decreases n,
{
    if n > 0 {
        let m = (n - 1) as nat;
        assert(escaped_hyphens(n) + t =~= escaped_hyphens(m) + (seq!['\\', '-'] + t));
        lemma_unescape_hyphens(m, seq!['\\', '-'] + t);
        lemma_unescape_pair('-', t);
        assert(Seq::new(m, |k: int| '-') + (seq!['-'] + unescape_markup(t)) =~= Seq::new(n, |k: int| '-')
            + unescape_markup(t));
    }
}

proof fn lemma_digit_run_digits(s: Seq<char>, k: int)
    requires
        0 <= k < digit_run(s),
    ensures
        is_digit(s[k]),
    decreases s.len(),
{
    lemma_digit_run_bound(s);
    assert(s.len() > 0 && is_digit(s[0]));
    if k > 0 {
        assert(digit_run(s) == 1 + digit_run(s.drop_first()));
        lemma_digit_run_digits(s.drop_first(), k - 1);
        assert(s.drop_first()[k - 1] == s[k]);
    }
}

proof fn lemma_hyphen_run_hyphens(s: Seq<char>, k: int)
    requires
        0 <= k < hyphen_run(s),
    ensures
        s[k] == '-',
    decreases s.len(),
{
    lemma_hyphen_run_bound(s);
    assert(s.len() > 0 && s[0] == '-');
    if k > 0 {
        assert(hyphen_run(s) == 1 + hyphen_run(s.drop_first()));
        lemma_hyphen_run_hyphens(s.drop_first(), k - 1);
        assert(s.drop_first()[k - 1] == s[k]);
    }
}

/// Escaping loses nothing: undoing the backslash escapes of escaped markup
/// gives back the text, wherever on a line it starts, so hostile prose
/// arrives as written.
pub proof fn law_escaping_loses_nothing(s: Seq<char>, line_start: bool)
    ensures
        unescape_markup(escape(s, line_start)) == s,
    decreases s.len(),
{
    if s.len() > 0 {
        let c = s[0];
        let rest = s.drop_first();
        assert(s =~= seq![c] + rest);
        if line_start && (c == ' ' || c == '\t') {
            law_escaping_loses_nothing(rest, true);
            lemma_unescape_char(c, escape(rest, true));
        } else if line_start && line_start_special(c) {
            law_escaping_loses_nothing(rest, false);
            lemma_unescape_pair(c, escape(rest, false));
        } else if line_start && is_digit(c) {
            let n = digit_run(s);
            lemma_digit_run_bound(s);
            let digits = s.subrange(0, n as int);
            assert forall|k: int| 0 <= k < digits.len() implies digits[k] != '\\' by {
                lemma_digit_run_digits(s, k);
            }
            if n < s.len() && s[n as int] == '.' {
                let after = s.subrange(n + 1int, s.len() as int);
                law_escaping_loses_nothing(after, false);
                lemma_unescape_pair('.', escape(after, false));
                assert(digits + seq!['\\', '.'] + escape(after, false) =~= digits + (seq!['\\', '.']
                    + escape(after, false)));
                lemma_unescape_plain(digits, seq!['\\', '.'] + escape(after, false));
                assert(digits + (seq!['.'] + after) =~= s);
            } else {
                assert(n >= 1);
                let after = s.subrange(n as int, s.len() as int);
                law_escaping_loses_nothing(after, false);
                lemma_unescape_plain(digits, escape(after, false));
                assert(digits + after =~= s);
            }
        } else if always_special(c) {
            law_escaping_loses_nothing(rest, false);
            lemma_unescape_pair(c, escape(rest, false));
        } else if opens_comment(c, rest) {
            law_escaping_loses_nothing(rest, false);
            lemma_unescape_pair(c, escape(rest, false));
        } else if c == '-' && rest.len() > 0 && rest[0] == '-' {
            let n = hyphen_run(s);
            lemma_hyphen_run_bound(s);
            assert(rest[0] == s[1]);
            assert(n >= 2) by {
                assert(hyphen_run(s) == 1 + hyphen_run(rest));
                assert(hyphen_run(rest) >= 1);
            }
            let after = s.subrange(n as int, s.len() as int);
            law_escaping_loses_nothing(after, false);
            lemma_unescape_hyphens(n, escape(after, false));
            assert forall|k: int| 0 <= k < n implies s[k] == '-' by {
                lemma_hyphen_run_hyphens(s, k);
            }
            assert(Seq::new(n, |k: int| '-') + after =~= s);
        } else if c == '\n' {
            law_escaping_loses_nothing(rest, true);
            lemma_unescape_char(c, escape(rest, true));
        } else {
            assert(c != '\\');
            law_escaping_loses_nothing(rest, false);
            lemma_unescape_char(c, escape(rest, false));
        }
    }
}

/// Whether no `/` that a backslash does not escape begins `//` or `/*`
/// in markup `t`, read from its start.
pub open spec fn opens_no_comment(t: Seq<char>) -> bool
    decreases t.len(),
{
    if t.len() == 0 {
        true
    } else if t[0] == '\\' {
        if t.len() < 2 {
            true
        } else {
            opens_no_comment(t.subrange(2, t.len() as int))
        }
    } else {
        !opens_comment(t[0], t.drop_first()) && opens_no_comment(t.drop_first())
    }
}

proof fn lemma_comment_pair(c: char, t: Seq<char>)
    ensures
        opens_no_comment(seq!['\\', c] + t) == opens_no_comment(t),
{
    assert((seq!['\\', c] + t).subrange(2, (seq!['\\', c] + t).len() as int) =~= t);
}

proof fn lemma_comment_char(c: char, t: Seq<char>)
    requires
        c != '\\',
    ensures
        opens_no_comment(seq![c] + t) == (!opens_comment(c, t) && opens_no_comment(t)),
{
    assert((seq![c] + t).drop_first() =~= t);
}

proof fn lemma_comment_plain(p: Seq<char>, t: Seq<char>)
    requires
        forall|k: int| 0 <= k < p.len() ==> p[k] != '\\' && p[k] != '/',
    ensures
        opens_no_comment(p + t) == opens_no_comment(t),
    decreases p.len(),
{
    if p.len() > 0 {
        let rest = p.drop_first();
        lemma_comment_plain(rest, t);
        assert(p + t =~= seq![p[0]] + (rest + t));
        lemma_comment_char(p[0], rest + t);
    }
}

proof fn lemma_comment_hyphens(n: nat, t: Seq<char>)
    ensures
        opens_no_comment(escaped_hyphens(n) + t) == opens_no_comment(t),
    decreases n,
{
    if n > 0 {
        let m = (n - 1) as nat;
        assert(escaped_hyphens(n) + t =~= escaped_hyphens(m) + (seq!['\\', '-'] + t));
        lemma_comment_hyphens(m, seq!['\\', '-'] + t);
        lemma_comment_pair('-', t);
    }
}

proof fn lemma_hyphens_start(n: nat)
    requires
        n > 0,
    ensures
        escaped_hyphens(n).len() == 2 * n,
        escaped_hyphens(n)[0] == '\\',
    decreases n,
{
    let m = (n - 1) as nat;
    assert(escaped_hyphens(n) == escaped_hyphens(m) + seq!['\\', '-']);
    if m > 0 {
        lemma_hyphens_start(m);
    } else {
        assert(escaped_hyphens(m) =~= Seq::<char>::empty());
    }
}

/// Escaped markup is empty only for empty text, and begins with the text's
/// first character or with a backslash.
proof fn lemma_escape_first(s: Seq<char>, line_start: bool)
    requires
        s.len() > 0,
    ensures
        escape(s, line_start).len() > 0,
        escape(s, line_start)[0] == s[0] || escape(s, line_start)[0] == '\\',
{
    let c = s[0];
    let rest = s.drop_first();
    if line_start && (c == ' ' || c == '\t') {
    } else if line_start && line_start_special(c) {
    } else if line_start && is_digit(c) {
        lemma_digit_run_bound(s);
        assert(digit_run(s) >= 1);
    } else if always_special(c) {
    } else if opens_comment(c, rest) {
    } else if c == '-' && rest.len() > 0 && rest[0] == '-' {
        let n = hyphen_run(s);
        lemma_hyphen_run_bound(s);
        assert(n >= 1);
        lemma_hyphens_start(n);
    } else {
    }
}

/// Escaping never writes a comment: in escaped markup, no `/` a backslash
/// does not escape begins `//` or `/*`, so prose is never cut short by
/// Typst reading the rest of a line as a comment.
pub proof fn law_escaping_opens_no_comment(s: Seq<char>, line_start: bool)
    ensures
        opens_no_comment(escape(s, line_start)),
    decreases s.len(),
{
    if s.len() > 0 {
        let c = s[0];
        let rest = s.drop_first();
        if line_start && (c == ' ' || c == '\t') {
            law_escaping_opens_no_comment(rest, true);
            lemma_comment_char(c, escape(rest, true));
        } else if line_start && line_start_special(c) {
            law_escaping_opens_no_comment(rest, false);
            lemma_comment_pair(c, escape(rest, false));
        } else if line_start && is_digit(c) {
            let n = digit_run(s);
            lemma_digit_run_bound(s);
            let digits = s.subrange(0, n as int);
            assert forall|k: int| 0 <= k < digits.len() implies digits[k] != '\\' && digits[k] != '/' by {
                lemma_digit_run_digits(s, k);
            }
            if n < s.len() && s[n as int] == '.' {
                let after = s.subrange(n + 1int, s.len() as int);
                law_escaping_opens_no_comment(after, false);
                lemma_comment_pair('.', escape(after, false));
                assert(digits + seq!['\\', '.'] + escape(after, false) =~= digits + (seq!['\\', '.']
                    + escape(after, false)));
                lemma_comment_plain(digits, seq!['\\', '.'] + escape(after, false));
            } else {
                let after = s.subrange(n as int, s.len() as int);
                law_escaping_opens_no_comment(after, false);
                lemma_comment_plain(digits, escape(after, false));
            }
        } else if always_special(c) {
            law_escaping_opens_no_comment(rest, false);
            lemma_comment_pair(c, escape(rest, false));
        } else if opens_comment(c, rest) {
            law_escaping_opens_no_comment(rest, false);
            lemma_comment_pair(c, escape(rest, false));
        } else if c == '-' && rest.len() > 0 && rest[0] == '-' {
            let n = hyphen_run(s);
            lemma_hyphen_run_bound(s);
            let after = s.subrange(n as int, s.len() as int);
            law_escaping_opens_no_comment(after, false);
            lemma_comment_hyphens(n, escape(after, false));
        } else if c == '\n' {
            law_escaping_opens_no_comment(rest, true);
            lemma_comment_char(c, escape(rest, true));
        } else {
            law_escaping_opens_no_comment(rest, false);
            lemma_comment_char(c, escape(rest, false));
            if rest.len() > 0 {
                lemma_escape_first(rest, false);
            }
        }
    }
}

/// Whether every character special anywhere in markup stands behind a
/// backslash in `t`, read from its start: a backslash and the character
/// after it are one escape, and no other character is special.
pub open spec fn specials_escaped(t: Seq<char>) -> bool
    decreases t.len(),
{
    if t.len() == 0 {
        true
    } else if t[0] == '\\' {
        t.len() >= 2 && specials_escaped(t.subrange(2, t.len() as int))
    } else {
        !always_special(t[0]) && specials_escaped(t.drop_first())
    }
}

proof fn lemma_specials_pair(c: char, t: Seq<char>)
    ensures
        specials_escaped(seq!['\\', c] + t) == specials_escaped(t),
{
    assert((seq!['\\', c] + t).subrange(2, (seq!['\\', c] + t).len() as int) =~= t);
}

proof fn lemma_specials_char(c: char, t: Seq<char>)
    requires
        c != '\\',
    ensures
        specials_escaped(seq![c] + t) == (!always_special(c) && specials_escaped(t)),
{
    assert((seq![c] + t).drop_first() =~= t);
}

proof fn lemma_specials_plain(p: Seq<char>, t: Seq<char>)
    requires
        forall|k: int| 0 <= k < p.len() ==> p[k] != '\\' && !always_special(p[k]),
    ensures
        specials_escaped(p + t) == specials_escaped(t),
    decreases p.len(),
{
    if p.len() > 0 {
        let rest = p.drop_first();
        lemma_specials_plain(rest, t);
        assert(p + t =~= seq![p[0]] + (rest + t));
        lemma_specials_char(p[0], rest + t);
    }
}

proof fn lemma_specials_hyphens(n: nat, t: Seq<char>)
    ensures
        specials_escaped(escaped_hyphens(n) + t) == specials_escaped(t),
    decreases n,
{
    if n > 0 {
        let m = (n - 1) as nat;
        assert(escaped_hyphens(n) + t =~= escaped_hyphens(m) + (seq!['\\', '-'] + t));
        lemma_specials_hyphens(m, seq!['\\', '-'] + t);
        lemma_specials_pair('-', t);
    }
}

/// Escaping leaves no special character bare: in escaped markup each of
/// `\`, `#`, `$`, `*`, `_`, `` ` ``, `<`, `>`, `@`, `~`, brackets,
/// parentheses and `.` stands behind a backslash, wherever on a line the
/// text starts.
pub proof fn law_escaping_escapes_every_special(s: Seq<char>, line_start: bool)
    ensures
        specials_escaped(escape(s, line_start)),
    decreases s.len(),
{
    if s.len() > 0 {
        let c = s[0];
        let rest = s.drop_first();
        if line_start && (c == ' ' || c == '\t') {
            law_escaping_escapes_every_special(rest, true);
            lemma_specials_char(c, escape(rest, true));
        } else if line_start && line_start_special(c) {
            law_escaping_escapes_every_special(rest, false);
            lemma_specials_pair(c, escape(rest, false));
        } else if line_start && is_digit(c) {
            let n = digit_run(s);
            lemma_digit_run_bound(s);
            let digits = s.subrange(0, n as int);
            assert forall|k: int| 0 <= k < digits.len() implies digits[k] != '\\' && !always_special(digits[k]) by {
                lemma_digit_run_digits(s, k);
            }
            if n < s.len() && s[n as int] == '.' {
                let after = s.subrange(n + 1int, s.len() as int);
                law_escaping_escapes_every_special(after, false);
                lemma_specials_pair('.', escape(after, false));
                assert(digits + seq!['\\', '.'] + escape(after, false) =~= digits + (seq!['\\', '.']
                    + escape(after, false)));
                lemma_specials_plain(digits, seq!['\\', '.'] + escape(after, false));
            } else {
                let after = s.subrange(n as int, s.len() as int);
                law_escaping_escapes_every_special(after, false);
                lemma_specials_plain(digits, escape(after, false));
            }
        } else if always_special(c) {
            law_escaping_escapes_every_special(rest, false);
            lemma_specials_pair(c, escape(rest, false));
        } else if opens_comment(c, rest) {
            law_escaping_escapes_every_special(rest, false);
            lemma_specials_pair(c, escape(rest, false));
        } else if c == '-' && rest.len() > 0 && rest[0] == '-' {
            let n = hyphen_run(s);
            lemma_hyphen_run_bound(s);
            let after = s.subrange(n as int, s.len() as int);
            law_escaping_escapes_every_special(after, false);
            lemma_specials_hyphens(n, escape(after, false));
        } else if c == '\n' {
            law_escaping_escapes_every_special(rest, true);
            lemma_specials_char(c, escape(rest, true));
        } else {
            law_escaping_escapes_every_special(rest, false);
            lemma_specials_char(c, escape(rest, false));
        }
    }
}

/// Whether no double quote stands bare in `t`, read from its start: a
/// backslash and the character after it are one escape.
pub open spec fn quotes_escaped(t: Seq<char>) -> bool
    decreases t.len(),
{
    if t.len() == 0 {
        true
    } else if t[0] == '\\' {
        t.len() >= 2 && quotes_escaped(t.subrange(2, t.len() as int))
    } else {
        t[0] != '"' && quotes_escaped(t.drop_first())
    }
}

proof fn lemma_quotes_concat(a: Seq<char>, b: Seq<char>)
    requires
        quotes_escaped(a),
        quotes_escaped(b),
    ensures
        quotes_escaped(a + b),
    decreases a.len(),
{
    if a.len() > 0 {
        if a[0] == '\\' {
            let rest = a.subrange(2, a.len() as int);
            lemma_quotes_concat(rest, b);
            assert((a + b).subrange(2, (a + b).len() as int) =~= rest + b);
        } else {
            let rest = a.drop_first();
            lemma_quotes_concat(rest, b);
            assert((a + b).drop_first() =~= rest + b);
        }
    }
}

/// A string literal's body leaves no double quote bare: each stands
/// behind a backslash, so the literal ends only at its closing quote.
pub proof fn law_string_body_escapes_quotes(s: Seq<char>)
    ensures
        quotes_escaped(string_body(s)),
    decreases s.len(),
{
    if s.len() > 0 {
        let front = s.subrange(0, s.len() - 1);
        law_string_body_escapes_quotes(front);
        let c = s[s.len() - 1];
        let piece = string_char(c);
        if c == '"' || c == '\\' || c == '\n' || c == '\r' || c == '\t' {
            assert(piece.subrange(2, piece.len() as int) =~= Seq::<char>::empty());
        } else {
            assert(piece.drop_first() =~= Seq::<char>::empty());
        }
        assert(quotes_escaped(Seq::<char>::empty()));
        assert(quotes_escaped(piece));
        lemma_quotes_concat(string_body(front), piece);
    }
}

/// A Typst string literal's body with its escapes read: `\n`, `\r`, `\t`
/// stand for their control characters, a backslash before anything else
/// for that character.
pub open spec fn read_string_body(t: Seq<char>) -> Seq<char>
    decreases t.len(),
{
    if t.len() == 0 {
        t
    } else if t[0] == '\\' && t.len() >= 2 {
        seq![
            if t[1] == 'n' {
                '\n'
            } else if t[1] == 'r' {
                '\r'
            } else if t[1] == 't' {
                '\t'
            } else {
                t[1]
            },
        ] + read_string_body(t.subrange(2, t.len() as int))
    } else {
        seq![t[0]] + read_string_body(t.subrange(1, t.len() as int))
    }
}

proof fn lemma_string_body_front(s: Seq<char>)
    requires
        s.len() > 0,
    ensures
        string_body(s) == string_char(s[0]) + string_body(s.drop_first()),
    decreases s.len(),
{
    if s.len() > 1 {
        let init = s.subrange(0, s.len() - 1);
        lemma_string_body_front(init);
        assert(init.drop_first() =~= s.drop_first().subrange(0, s.drop_first().len() - 1));
        assert(s.drop_first()[s.drop_first().len() - 1] == s[s.len() - 1]);
    } else {
        assert(s.subrange(0, 0) =~= Seq::<char>::empty());
        assert(s.drop_first() =~= Seq::<char>::empty());
    }
}

proof fn lemma_read_char(c: char, t: Seq<char>)
    ensures
        read_string_body(string_char(c) + t) == seq![c] + read_string_body(t),
{
    let u = string_char(c) + t;
    if string_char(c).len() == 2 {
        assert(u.subrange(2, u.len() as int) =~= t);
    } else {
        assert(u.subrange(1, u.len() as int) =~= t);
    }
}

/// A string literal reads back as the string it was made from: its quotes
/// hold exactly the string, every quote and backslash inside escaped.
pub proof fn law_string_literals_read_back(s: Seq<char>)
    ensures
        read_string_body(string_body(s)) == s,
        string_literal(s) == seq!['"'] + string_body(s) + seq!['"'],
    decreases s.len(),
{
    if s.len() > 0 {
        lemma_string_body_front(s);
        law_string_literals_read_back(s.drop_first());
        lemma_read_char(s[0], string_body(s.drop_first()));
        assert(seq![s[0]] + s.drop_first() =~= s);
    }
}

// -- slugs ----------------------------------------------------------------------------

proof fn lemma_decimal_shape(n: nat)
    ensures
        decimal(n).len() >= 1,
        n < 10 ==> decimal(n).len() == 1,
        n >= 10 ==> decimal(n).len() >= 2,
        forall|k: int| 0 <= k < decimal(n).len() ==> '0' <= #[trigger] decimal(n)[k] <= '9',
    decreases n,
{
    if n >= 10 {
        lemma_decimal_shape(n / 10);
        let d = decimal(n);
        assert forall|k: int| 0 <= k < d.len() implies '0' <= #[trigger] d[k] <= '9' by {
            if k < d.len() - 1 {
                assert(d[k] == decimal(n / 10)[k]);
            }
        }
    }
}

proof fn lemma_digit_injective(a: nat, b: nat)
    requires
        a < 10,
        b < 10,
        digit(a) == digit(b),
    ensures
        a == b,
{
}

/// Decimal numerals name their numbers: two numbers are written alike only
/// if they are the same number.
proof fn lemma_decimal_injective(a: nat, b: nat)
    requires
        decimal(a) == decimal(b),
    ensures
        a == b,
    decreases a,
{
    lemma_decimal_shape(a);
    lemma_decimal_shape(b);
    if a < 10 && b < 10 {
        assert(decimal(a)[0] == digit(a));
        assert(decimal(b)[0] == digit(b));
        lemma_digit_injective(a, b);
    } else if a >= 10 && b >= 10 {
        let da = decimal(a);
        let db = decimal(b);
        assert(da.last() == digit(a % 10));
        assert(db.last() == digit(b % 10));
        lemma_digit_injective(a % 10, b % 10);
        assert(da.drop_last() =~= decimal(a / 10));
        assert(db.drop_last() =~= decimal(b / 10));
        lemma_decimal_injective(a / 10, b / 10);
        assert(a == 10 * (a / 10) + a % 10);
        assert(b == 10 * (b / 10) + b % 10);
    }
}

/// Counter slugs of one name differ where their counters do.
proof fn lemma_counter_slugs_differ(name: Seq<char>, i: nat, j: nat)
    requires
        i != j,
    ensures
        sanitized(name + seq!['-'] + decimal(i + 1)) != sanitized(name + seq!['-'] + decimal(j + 1)),
{
    let di = decimal(i + 1);
    let dj = decimal(j + 1);
    let x = name + seq!['-'] + di;
    let y = name + seq!['-'] + dj;
    if di.len() == dj.len() {
        if di =~= dj {
            lemma_decimal_injective(i + 1, j + 1);
        }
        let p = choose|p: int| 0 <= p < di.len() && di[p] != dj[p];
        lemma_decimal_shape(i + 1);
        lemma_decimal_shape(j + 1);
        let q = name.len() + 1 + p;
        assert(x[q] == di[p]);
        assert(y[q] == dj[p]);
        assert(sanitized(x)[q] == dash(x[q]));
        assert(sanitized(y)[q] == dash(y[q]));
        assert('0' <= di[p] <= '9' && '0' <= dj[p] <= '9');
        assert(sanitized(x)[q] != sanitized(y)[q]);
        assert(sanitized(x) != sanitized(y));
    } else {
        assert(sanitized(x).len() == x.len() && sanitized(y).len() == y.len());
        assert(sanitized(x).len() != sanitized(y).len());
    }
}

proof fn lemma_first_depth_distinct(parts: Seq<Seq<Seq<char>>>, name: Seq<char>, d0: int, d: int)
    requires
        first_depth(parts, name, d0) == Some(d),
    ensures
        distinct(candidates(parts, d, name)),
    decreases crate::manual::deepest(parts) + 1 - d0,
{
    if !(d0 < 1 || d0 > crate::manual::deepest(parts)) && !distinct(candidates(parts, d0, name)) {
        lemma_first_depth_distinct(parts, name, d0 + 1, d);
    }
}

/// The slugs of a group of same-named topics tell the group apart: no two
/// are the same.
pub proof fn law_group_slugs_differ(paths: Seq<Seq<char>>, name: Seq<char>)
    ensures
        group_slugs(paths, name).len() == paths.len(),
        distinct(group_slugs(paths, name)),
{
    let parts = Seq::new(paths.len(), |i: int| crate::manual::stem_parts(paths[i]));
    match first_depth(parts, name, 1) {
        Some(d) => {
            lemma_first_depth_distinct(parts, name, 1, d);
        },
        None => {
            let g = group_slugs(paths, name);
            assert forall|a: int, b: int| 0 <= a < b < g.len() implies (#[trigger] g[a]) != (#[trigger] g[b]) by {
                lemma_counter_slugs_differ(name, a as nat, b as nat);
            }
        },
    }
}

/// Topics sharing a name get different slugs, so neither their files nor
/// their heading labels collide; a topic whose name is its own keeps that
/// name, sanitized.
pub proof fn law_shared_names_get_distinct_slugs(es: Seq<(String, String)>, a: int, b: int)
    requires
        0 <= a < b < es.len(),
        es[a].1@ == es[b].1@,
    ensures
        slug_of(es, a) != slug_of(es, b),
{
    let n = es[a].1@;
    let g = group_paths(es, n);
    crate::manual::lemma_group_grows(es, n, a + 1, b);
    crate::manual::lemma_group_grows(es, n, b + 1, es.len() as int);
    let pa = es.subrange(0, a + 1);
    assert(pa.drop_last() =~= es.subrange(0, a));
    assert(pa.last() == es[a]);
    let pb = es.subrange(0, b + 1);
    assert(pb.drop_last() =~= es.subrange(0, b));
    assert(pb.last() == es[b]);
    assert(es.subrange(0, es.len() as int) =~= es);
    let ra = group_paths(es.subrange(0, a), n).len();
    let rb = group_paths(es.subrange(0, b), n).len();
    assert(ra < rb);
    assert(rb < g.len());
    law_group_slugs_differ(g, n);
    assert(group_slugs(g, n)[ra as int] != group_slugs(g, n)[rb as int]);
}

// -- plain text, strings and indentation -----------------------------------------------

/// Plain text is taken inline by inline: the text of two runs one after
/// the other is the text of the first followed by that of the second.
pub proof fn law_plain_text_concatenates(a: Seq<Inline>, b: Seq<Inline>)
    ensures
        plain_text(a + b) == plain_text(a) + plain_text(b),
    decreases b.len(),
{
    if b.len() == 0 {
        assert(a + b =~= a);
    } else {
        law_plain_text_concatenates(a, b.drop_last());
        assert((a + b).subrange(0, (a + b).len() - 1) =~= a + b.drop_last());
        assert(b.subrange(0, b.len() - 1) =~= b.drop_last());
        assert((a + b)[(a + b).len() - 1] == b[b.len() - 1]);
    }
}

/// The body of a string literal holds no raw line break, carriage return
/// or tab, and is at least as long as the string and at most twice as
/// long.
pub proof fn law_string_body_shape(s: Seq<char>)
    ensures
        s.len() <= string_body(s).len() <= 2 * s.len(),
        forall|k: int|
            0 <= k < string_body(s).len() ==> #[trigger] string_body(s)[k] != '\n' && string_body(s)[k] != '\r'
                && string_body(s)[k] != '\t',
    decreases s.len(),
{
    if s.len() > 0 {
        let front = s.subrange(0, s.len() - 1);
        law_string_body_shape(front);
        let c = s[s.len() - 1];
        let body = string_body(s);
        assert(body == string_body(front) + string_char(c));
        assert forall|k: int| 0 <= k < body.len() implies #[trigger] body[k] != '\n' && body[k] != '\r'
            && body[k] != '\t' by {
            if k >= string_body(front).len() {
                assert(body[k] == string_char(c)[k - string_body(front).len()]);
            } else {
                assert(body[k] == string_body(front)[k]);
            }
        }
    }
}

/// A string literal is the string's body between two double quotes, and
/// stays on one line.
pub proof fn law_string_literal_shape(s: Seq<char>)
    ensures
        string_literal(s).len() >= s.len() + 2,
        string_literal(s)[0] == '"',
        string_literal(s).last() == '"',
        forall|k: int| 0 <= k < string_literal(s).len() ==> #[trigger] string_literal(s)[k] != '\n',
{
    law_string_body_shape(s);
    let lit = string_literal(s);
    assert forall|k: int| 0 <= k < lit.len() implies #[trigger] lit[k] != '\n' by {
        if 0 < k < lit.len() - 1 {
            assert(lit[k] == string_body(s)[k - 1]);
        }
    }
}

/// Indentation works line by line: a first line is kept as it is, and
/// every following line is indented, unless it is empty, as it would be on
/// its own.
pub proof fn law_indent_line_by_line(first: Seq<char>, rest: Seq<char>, pad: Seq<char>)
    requires
        forall|k: int| 0 <= k < first.len() ==> first[k] != '\n',
    ensures
        indent(first, pad) == first,
        indent(first + seq!['\n'] + rest, pad) == first + seq!['\n'] + (if rest.len() > 0 && rest[0] != '\n' {
            pad
        } else {
            seq![]
        }) + indent(rest, pad),
    decreases first.len(),
{
    if first.len() == 0 {
        assert(first + seq!['\n'] + rest =~= seq!['\n'] + rest);
        assert((seq!['\n'] + rest).drop_first() =~= rest);
    } else {
        let tail = first.drop_first();
        law_indent_line_by_line(tail, rest, pad);
        assert((first + seq!['\n'] + rest).drop_first() =~= tail + seq!['\n'] + rest);
        assert(first =~= seq![first[0]] + tail);
        assert(seq![first[0]] + (tail + seq!['\n'] + (if rest.len() > 0 && rest[0] != '\n' {
            pad
        } else {
            seq![]
        }) + indent(rest, pad)) =~= first + seq!['\n'] + (if rest.len() > 0 && rest[0] != '\n' {
            pad
        } else {
            seq![]
        }) + indent(rest, pad));
    }
}

proof fn lemma_indent_split(x: Seq<char>, y: Seq<char>, pad: Seq<char>)
    ensures
        indent(x + seq!['\n'] + y, pad) == indent(x, pad) + seq!['\n'] + (if y.len() > 0 && y[0] != '\n' {
            pad
        } else {
            seq![]
        }) + indent(y, pad),
    decreases x.len(),
{
    let p = if y.len() > 0 && y[0] != '\n' {
        pad
    } else {
        seq![]
    };
    if x.len() == 0 {
        assert(x + seq!['\n'] + y =~= seq!['\n'] + y);
        assert((seq!['\n'] + y).drop_first() =~= y);
        assert(indent(x, pad) =~= Seq::<char>::empty());
        assert(seq!['\n'] + p + indent(y, pad) =~= indent(x, pad) + seq!['\n'] + p + indent(y, pad));
    } else {
        let tail = x.drop_first();
        lemma_indent_split(tail, y, pad);
        let whole = x + seq!['\n'] + y;
        assert(whole.drop_first() =~= tail + seq!['\n'] + y);
        assert(whole[0] == x[0]);
        if x[0] == '\n' {
            assert(whole.len() > 1);
            if tail.len() > 0 {
                assert(whole[1] == tail[0]);
            } else {
                assert(whole[1] == '\n');
            }
        }
        let q = if x[0] == '\n' {
            seq!['\n'] + (if x.len() > 1 && x[1] != '\n' {
                pad
            } else {
                seq![]
            })
        } else {
            seq![x[0]]
        };
        assert(indent(x, pad) == q + indent(tail, pad));
        assert(indent(whole, pad) == q + indent(tail + seq!['\n'] + y, pad));
        assert(q + (indent(tail, pad) + seq!['\n'] + p + indent(y, pad)) =~= indent(x, pad) + seq!['\n'] + p
            + indent(y, pad));
    }
}

/// The lines of `v` once indented: the first as it is, every later line
/// behind the padding unless it is empty.
pub open spec fn padded_lines(v: Seq<Seq<char>>, pad: Seq<char>) -> Seq<Seq<char>> {
    Seq::new(v.len(), |i: int| if i == 0 || v[i].len() == 0 { v[i] } else { pad + v[i] })
}

/// Indentation over whole lines: text made of lines joined by line
/// breaks comes out as the same lines, each after the first padded unless
/// it is empty, joined the same way.
pub proof fn law_indent_over_lines(v: Seq<Seq<char>>, pad: Seq<char>)
    requires
        forall|i: int, k: int| 0 <= i < v.len() && 0 <= k < v[i].len() ==> #[trigger] v[i][k] != '\n',
    ensures
        indent(join(v, seq!['\n']), pad) == join(padded_lines(v, pad), seq!['\n']),
    decreases v.len(),
{
    if v.len() == 0 {
        assert(padded_lines(v, pad) =~= Seq::<Seq<char>>::empty());
    } else if v.len() == 1 {
        law_indent_line_by_line(v[0], seq![], pad);
    } else {
        let front = v.subrange(0, v.len() - 1);
        let last = v[v.len() - 1];
        assert forall|i: int, k: int| 0 <= i < front.len() && 0 <= k < front[i].len() implies #[trigger] front[i][k]
            != '\n' by {
            assert(front[i] == v[i]);
        }
        law_indent_over_lines(front, pad);
        assert forall|k: int| 0 <= k < last.len() implies last[k] != '\n' by {
            assert(v[v.len() - 1][k] != '\n');
        }
        law_indent_line_by_line(last, seq![], pad);
        lemma_indent_split(join(front, seq!['\n']), last, pad);
        let pv = padded_lines(v, pad);
        assert(pv.subrange(0, pv.len() - 1) =~= padded_lines(front, pad));
        assert(pv[pv.len() - 1] == (if last.len() == 0 {
            last
        } else {
            pad + last
        }));
        if last.len() > 0 {
            assert(last[0] != '\n');
            assert(seq!['\n'] + pad + last =~= seq!['\n'] + (pad + last));
        }
        assert(join(pv, seq!['\n']) == join(pv.subrange(0, pv.len() - 1), seq!['\n']) + seq!['\n'] + pv[pv.len() - 1]);
        assert(join(v, seq!['\n']) == join(front, seq!['\n']) + seq!['\n'] + last);
        assert(join(padded_lines(front, pad), seq!['\n']) + seq!['\n'] + (if last.len() > 0 && last[0] != '\n' {
            pad
        } else {
            seq![]
        }) + last =~= join(padded_lines(front, pad), seq!['\n']) + seq!['\n'] + pv[pv.len() - 1]);
    }
}

// -- file stems -----------------------------------------------------------------------

proof fn lemma_first_depth(parts: Seq<Seq<Seq<char>>>, name: Seq<char>, d: int)
    ensures
        first_depth(parts, name, d) matches Some(e) ==> d <= e && distinct(candidates(parts, e, name))
            && forall|f: int| d <= f < e ==> !distinct(#[trigger] candidates(parts, f, name)),
    decreases deepest(parts) + 1 - d,
{
    if !(d < 1 || d > deepest(parts)) && !distinct(candidates(parts, d, name)) {
        lemma_first_depth(parts, name, d + 1);
    }
}

/// The stems of a group of same-named topics use the least depth of path
/// that tells them apart: each is the candidate at that depth, and every
/// shallower depth gives two topics the same stem.
pub proof fn law_slugs_take_the_least_depth(paths: Seq<Seq<char>>, name: Seq<char>)
    ensures
        ({
            let parts = Seq::new(paths.len(), |i: int| stem_parts(paths[i]));
            first_depth(parts, name, 1) matches Some(d) ==> group_slugs(paths, name) == candidates(parts, d, name)
                && distinct(candidates(parts, d, name)) && forall|f: int|
                1 <= f < d ==> !distinct(#[trigger] candidates(parts, f, name))
        }),
{
    let parts = Seq::new(paths.len(), |i: int| stem_parts(paths[i]));
    lemma_first_depth(parts, name, 1);
}

// -- the document ------------------------------------------------------------------------

/// A document is its data block, a blank line's worth of separation and the
/// template, behind the MiTeX import when it holds math; the data block
/// opens with the topic's name as a string and ends its last line.
#[verifier::spinoff_prover]
#[verifier::rlimit(60)]
pub proof fn law_document_layout(topic: Topic, entry: Entry, options: Options)
    ensures
        ({
            let body = data_block(topic, entry, options) + seq!['\n'] + template_text(options);
            document(topic, entry, options) == if topic_math(topic) {
                "#import \"@preview/mitex:0.2.7\": mi, mitex\n\n"@ + body
            } else {
                body
            }
        }),
        ({
            let head = "#let doc-name = "@ + string_literal(topic.name@);
            data_block(topic, entry, options).subrange(0, head.len() as int) == head
        }),
        data_block(topic, entry, options).last() == '\n',
{
    let d = data_block(topic, entry, options);
    let head = "#let doc-name = "@ + string_literal(topic.name@);
    let lines = data_block_lines(topic, options, ctx_of(entry, options));
    assert(d == head + (d.subrange(head.len() as int, d.len() as int))) by {
        let tail = d.subrange(head.len() as int, d.len() as int);
        assert(d =~= head + tail);
    }
    assert(d.subrange(0, head.len() as int) =~= head);
    assert(lines.last() == '\n');
    assert(d.last() == lines.last());
}

/// A topic with nothing to show has no sections: an empty field gives no
/// entry, so the `doc-sections` array of such a topic is empty.
pub proof fn law_empty_topic_has_no_sections(topic: Topic, ctx: Ctx)
    requires
        topic.description@.len() == 0,
        topic.params@.len() == 0,
        topic.details@.len() == 0,
        topic.value@.len() == 0,
        topic.raises@.len() == 0,
        topic.sections@.len() == 0,
        topic.note@.len() == 0,
        topic.examples@.len() == 0,
        topic.seealso@.len() == 0,
        topic.references@.len() == 0,
        topic.author@.len() == 0,
    ensures
        sections_array(topic, ctx) == "()"@,
{
    assert(section_entries(topic, ctx) =~= Seq::<char>::empty());
}

// -- labels -------------------------------------------------------------------------------

proof fn lemma_labels_named(es: Seq<(String, String)>, slugs: Seq<String>, n: int)
    requires
        n <= es.len(),
    ensures
        forall|k: int|
            0 <= k < labels_of(es, slugs, n).len() ==> exists|m: int|
                0 <= m < n && (#[trigger] labels_of(es, slugs, n)[k]).0 == es[m].1@,
    decreases n,
{
    if n > 0 {
        lemma_labels_named(es, slugs, n - 1);
        let prev = labels_of(es, slugs, n - 1);
        let cur = labels_of(es, slugs, n);
        assert forall|k: int| 0 <= k < cur.len() implies exists|m: int| 0 <= m < n && (#[trigger] cur[k]).0 == es[m].1@ by {
            if k < prev.len() {
                assert(cur[k] == prev[k]);
                let m = choose|m: int| 0 <= m < n - 1 && prev[k].0 == es[m].1@;
                assert(0 <= m < n && cur[k].0 == es[m].1@);
            } else {
                assert(cur[k].0 == es[n - 1].1@);
            }
        }
    }
}

/// The run-wide labels pair each name with one label: no name occurs
/// twice among them, so a name looked up there has no rival.
pub proof fn law_labels_name_once(es: Seq<(String, String)>, slugs: Seq<String>, n: int)
    requires
        n <= es.len(),
    ensures
        forall|a: int, b: int|
            0 <= a < b < labels_of(es, slugs, n).len() ==> (#[trigger] labels_of(es, slugs, n)[a]).0
                != (#[trigger] labels_of(es, slugs, n)[b]).0,
    decreases n,
{
    if n > 0 {
        law_labels_name_once(es, slugs, n - 1);
        lemma_labels_named(es, slugs, n - 1);
        let prev = labels_of(es, slugs, n - 1);
        let cur = labels_of(es, slugs, n);
        let names = entry_names(es);
        if !shared(names, es[n - 1].1@) {
            assert forall|a: int, b: int| 0 <= a < b < cur.len() implies (#[trigger] cur[a]).0 != (#[trigger] cur[b]).0 by {
                assert(cur[a] == prev[a]);
                if b < prev.len() {
                    assert(cur[b] == prev[b]);
                } else {
                    let m = choose|m: int| 0 <= m < n - 1 && prev[a].0 == es[m].1@;
                    if cur[a].0 == cur[b].0 {
                        assert(names[m] == es[n - 1].1@ && names[n - 1] == es[n - 1].1@);
                        assert(shared(names, es[n - 1].1@));
                    }
                }
            }
        }
    }
}

/// Where no depth of path tells a group of same-named topics apart, each
/// takes the name and its place in the group, counted from one.
pub proof fn law_slugs_fall_back_to_counters(paths: Seq<Seq<char>>, name: Seq<char>)
    ensures
        ({
            let parts = Seq::new(paths.len(), |i: int| stem_parts(paths[i]));
            first_depth(parts, name, 1) is None ==> group_slugs(paths, name) == Seq::new(
                paths.len(),
                |i: int| sanitized(name + seq!['-'] + decimal((i + 1) as nat)),
            )
        }),
{
}

/// A prose section is listed exactly when it has content, under its id.
pub proof fn law_prose_entries_list_what_has_content(id: Seq<char>, title: Seq<char>, body: Seq<Block>, ctx: Ctx)
    ensures
        (prose_entry(id, title, body, ctx).len() == 0) == (body.len() == 0),
        body.len() > 0 ==> prose_entry(id, title, body, ctx).subrange(0, ("  (id: \""@ + id).len() as int) == "  (id: \""@
            + id,
{
    reveal_strlit("  (id: \"");
    if body.len() > 0 {
        let head = "  (id: \""@ + id;
        let e = prose_entry(id, title, body, ctx);
        assert(e == head + (e.subrange(head.len() as int, e.len() as int))) by {
            assert(e =~= head + e.subrange(head.len() as int, e.len() as int));
        }
        assert(e.subrange(0, head.len() as int) =~= head);
    }
}

/// The sections of a topic come in a fixed order: description,
/// arguments, details, value, raises, the custom sections in source order,
/// note, examples, see also, references, author; each is listed only when
/// the topic has something for it.
pub proof fn law_sections_in_order(topic: Topic, ctx: Ctx)
    ensures
        section_entries(topic, ctx) == prose_entry("description"@, "Description"@, topic.description@, ctx)
            + (if topic.params@.len() > 0 {
            "  (id: \"arguments\", title: [Arguments], kind: \"params\", items: doc-params),\n"@
        } else {
            seq![]
        }) + prose_entry("details"@, "Details"@, topic.details@, ctx) + prose_entry(
            "value"@,
            "Value"@,
            topic.value@,
            ctx,
        ) + (if topic.raises@.len() > 0 {
            "  (id: \"raises\", title: [Raises], kind: \"params\", items: doc-raises),\n"@
        } else {
            seq![]
        }) + custom_sections(topic.sections@, topic.sections@.len(), ctx) + prose_entry(
            "note"@,
            "Note"@,
            topic.note@,
            ctx,
        ) + (if topic.examples@.len() > 0 {
            "  (id: \"examples\", title: [Examples], kind: \"examples\", items: doc-examples),\n"@
        } else {
            seq![]
        }) + prose_entry("seealso"@, "See Also"@, topic.seealso@, ctx) + prose_entry(
            "references"@,
            "References"@,
            topic.references@,
            ctx,
        ) + prose_entry("author"@, "Author"@, topic.author@, ctx),
        custom_sections(topic.sections@, topic.sections@.len(), ctx).len() == 0 <==> topic.sections@.len() == 0,
{
    if topic.sections@.len() > 0 {
        let n = topic.sections@.len();
        reveal_strlit("  (id: \"custom\", title: [");
        assert(custom_sections(topic.sections@, n, ctx).len() > 0);
    }
}

/// The lines after the signature in the data block of a topic with no
/// parameters, exceptions, examples or sections bind empty arrays.
pub proof fn law_empty_arrays(topic: Topic, options: Options, ctx: Ctx)
    requires
        topic.params@.len() == 0,
        topic.raises@.len() == 0,
        topic.examples@.len() == 0,
        topic.description@.len() == 0,
        topic.details@.len() == 0,
        topic.value@.len() == 0,
        topic.sections@.len() == 0,
        topic.note@.len() == 0,
        topic.seealso@.len() == 0,
        topic.references@.len() == 0,
        topic.author@.len() == 0,
    ensures
        data_block_lines(topic, options, ctx) == "\n#let doc-params = "@ + "()"@ + "\n#let doc-raises = "@ + "()"@
            + "\n#let doc-params-format = "@ + (match options.params_format {
            ParamsFormat::Table => "\"table\""@,
            ParamsFormat::Terms => "\"terms\""@,
        }) + "\n#let doc-examples = "@ + "()"@ + "\n#let doc-sections = "@ + "()"@ + seq!['\n'],
{
    law_empty_topic_has_no_sections(topic, ctx);
}

/// A topic with no signature binds `doc-signature` to `none`: the data
/// block is the one for its other fields with `none` in that place.
pub proof fn law_no_signature_is_none(topic: Topic, entry: Entry, options: Options)
    requires
        topic.signature is None,
    ensures
        data_block(topic, entry, options) == {
            let ctx = ctx_of(entry, options);
            let label = match entry.label {
                Some(l) => l@,
                None => topic.name@,
            };
            "#let doc-name = "@ + string_literal(topic.name@) + "\n#let doc-label = "@ + (if is_label_safe(label) {
                seq!['<'] + label + seq!['>']
            } else {
                "none"@
            }) + "\n#let doc-title = ["@ + iso_inline(topic.title@, ctx) + "]\n#let doc-aliases = "@ + string_array(
                topic.aliases@,
            ) + "\n#let doc-source = "@ + (match entry.source {
                Some(s) => seq!['['] + code_span(s@) + seq![']'],
                None => "none"@,
            }) + "\n#let doc-signature = "@ + "none"@ + data_block_lines(topic, options, ctx)
        },
{
}

// -- links ----------------------------------------------------------------------------------

proof fn lemma_string_body_concat(x: Seq<char>, y: Seq<char>)
    ensures
        string_body(x + y) == string_body(x) + string_body(y),
    decreases y.len(),
{
    if y.len() == 0 {
        assert(x + y =~= x);
        assert(string_body(y) =~= Seq::<char>::empty());
        assert(string_body(x) + string_body(y) =~= string_body(x));
    } else {
        let yf = y.subrange(0, y.len() - 1);
        lemma_string_body_concat(x, yf);
        assert((x + y).subrange(0, (x + y).len() - 1) =~= x + yf);
        assert((x + y)[(x + y).len() - 1] == y[y.len() - 1]);
        assert(string_body(x) + string_body(yf) + string_char(y[y.len() - 1]) =~= string_body(x) + (string_body(yf)
            + string_char(y[y.len() - 1])));
    }
}

proof fn lemma_plain_string_body(x: Seq<char>)
    requires
        forall|k: int| 0 <= k < x.len() ==> x[k] != '"' && x[k] != '\\' && x[k] != '\n' && x[k] != '\r' && x[k] != '\t',
    ensures
        string_body(x) == x,
    decreases x.len(),
{
    if x.len() > 0 {
        let f = x.subrange(0, x.len() - 1);
        lemma_plain_string_body(f);
        assert(f + seq![x[x.len() - 1]] =~= x);
    } else {
        assert(string_body(x) =~= x);
    }
}

/// An email link is a link to the address behind `mailto:`: with text of
/// its own it renders exactly as a web link to `mailto:` and the address,
/// with none it is the link to the string literal that begins `"mailto:`
/// and goes on with the address, showing the address as code.
pub proof fn law_email_links_are_mailto(st: St, a: String, u: String, children: Seq<Inline>, ctx: Ctx)
    requires
        u@ == "mailto:"@ + a@,
    ensures
        children.len() > 0 ==> w_link(st, LinkDest::Email(a), children, ctx) == w_link(
            st,
            LinkDest::Url(u),
            children,
            ctx,
        ),
        children.len() == 0 ==> w_link(st, LinkDest::Email(a), children, ctx).0 == st.0 + "#link("@ + seq![
            '"',
            'm',
            'a',
            'i',
            'l',
            't',
            'o',
            ':',
        ] + string_body(a@) + seq!['"'] + ")["@ + code_span(a@) + seq![']'],
{
    reveal_strlit("mailto:");
    let m = "mailto:"@;
    assert(m =~= seq!['m', 'a', 'i', 'l', 't', 'o', ':']);
    lemma_plain_string_body(m);
    lemma_string_body_concat(m, a@);
    let lit = string_literal(m + a@);
    assert(lit =~= seq!['"', 'm', 'a', 'i', 'l', 't', 'o', ':'] + string_body(a@) + seq!['"']);
    if children.len() == 0 {
        let out = w_link(st, LinkDest::Email(a), children, ctx).0;
        assert(out =~= st.0 + "#link("@ + seq!['"', 'm', 'a', 'i', 'l', 't', 'o', ':'] + string_body(a@) + seq!['"']
            + ")["@ + code_span(a@) + seq![']']);
    }
}

} // verus!
