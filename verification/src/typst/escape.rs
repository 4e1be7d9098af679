//! Escaping Typst markup and string literals.

use vstd::prelude::*;

use crate::text::{chars_of, join, join_exec, push_chars, string_of};

verus! {

/// How one character is written inside a Typst string literal.
pub open spec fn string_char(c: char) -> Seq<char> {
    if c == '"' {
        seq!['\\', '"']
    } else if c == '\\' {
        seq!['\\', '\\']
    } else if c == '\n' {
        seq!['\\', 'n']
    } else if c == '\r' {
        seq!['\\', 'r']
    } else if c == '\t' {
        seq!['\\', 't']
    } else {
        seq![c]
    }
}

/// The characters between the quotes of the Typst string literal for `s`.
pub open spec fn string_body(s: Seq<char>) -> Seq<char>
    decreases s.len(),
{
    if s.len() == 0 {
        seq![]
    } else {
        string_body(s.subrange(0, s.len() - 1)) + string_char(s[s.len() - 1])
    }
}

/// The Typst string literal for `s`, quotes included.
pub open spec fn string_literal(s: Seq<char>) -> Seq<char> {
    seq!['"'] + string_body(s) + seq!['"']
}

/// The string literal for `value`, as characters.
pub(crate) fn string_literal_chars(value: &Vec<char>) -> (r: Vec<char>)
    ensures
        r@ == string_literal(value@),
{
    let mut out: Vec<char> = Vec::new();
    out.push('"');
    let mut i: usize = 0;
    while i < value.len()
        invariant
            i <= value.len(),
            out@ == seq!['"'] + string_body(value@.subrange(0, i as int)),
        decreases value.len() - i,
    {
        assert(value@.subrange(0, i + 1).subrange(0, i as int) =~= value@.subrange(0, i as int));
        let c = value[i];
        if c == '"' {
            out.push('\\');
            out.push('"');
        } else if c == '\\' {
            out.push('\\');
            out.push('\\');
        } else if c == '\n' {
            out.push('\\');
            out.push('n');
        } else if c == '\r' {
            out.push('\\');
            out.push('r');
        } else if c == '\t' {
            out.push('\\');
            out.push('t');
        } else {
            out.push(c);
        }
        i = i + 1;
        assert(out@ =~= seq!['"'] + string_body(value@.subrange(0, i as int)));
    }
    out.push('"');
    assert(value@.subrange(0, value.len() as int) =~= value@);
    out
}

/// Escape a Typst string literal, including the surrounding quotes.
pub fn typst_string(value: &str) -> (r: String)
    ensures
        r@ == string_literal(value@),
{
    let chars = chars_of(value);
    let out = string_literal_chars(&chars);
    string_of(out.as_slice())
}

/// The string literals of `values`, in order.
pub open spec fn literals(values: Seq<String>) -> Seq<Seq<char>> {
    values.map_values(|v: String| string_literal(v@))
}

/// A Typst array of the string literals of `values`.
///
/// A one-element array needs a trailing comma to stay an array.
pub open spec fn string_array(values: Seq<String>) -> Seq<char> {
    if values.len() == 1 {
        seq!['('] + string_literal(values[0]@) + seq![',', ')']
    } else {
        seq!['('] + join(literals(values), seq![',', ' ']) + seq![')']
    }
}

/// The array literal for `values`, as characters.
pub(crate) fn string_array_chars(values: &Vec<String>) -> (r: Vec<char>)
    ensures
        r@ == string_array(values@),
{
    let mut items: Vec<Vec<char>> = Vec::new();
    let mut i: usize = 0;
    while i < values.len()
        invariant
            i <= values.len(),
            items@.len() == i,
            forall|k: int| 0 <= k < i ==> #[trigger] items@[k]@ == string_literal(values@[k]@),
        decreases values.len() - i,
    {
        let v = chars_of(values[i].as_str());
        items.push(string_literal_chars(&v));
        i = i + 1;
    }
    let mut out: Vec<char> = Vec::new();
    out.push('(');
    if items.len() == 1 {
        push_chars(&mut out, &items[0]);
        out.push(',');
        out.push(')');
    } else {
        let joined = join_exec(&items, ", ");
        assert(items@.map_values(|p: Vec<char>| p@) =~= literals(values@));
        proof {
            reveal_strlit(", ");
        }
        assert(", "@ =~= seq![',', ' ']);
        push_chars(&mut out, &joined);
        out.push(')');
    }
    out
}

/// Render a Typst array of string literals.
pub fn typst_string_array(values: &Vec<String>) -> (r: String)
    ensures
        r@ == string_array(values@),
{
    let out = string_array_chars(values);
    string_of(out.as_slice())
}

/// Characters special anywhere in markup.
pub open spec fn always_special(c: char) -> bool {
    c == '\\' || c == '#' || c == '$' || c == '*' || c == '_' || c == '`' || c == '<' || c == '>'
        || c == '@' || c == '~' || c == '[' || c == ']' || c == '(' || c == ')' || c == '.'
}

/// Characters that begin a heading, list, or term at the start of a line.
pub open spec fn line_start_special(c: char) -> bool {
    c == '=' || c == '-' || c == '+' || c == '/'
}

/// A `/` that would begin a comment with the character after it (`//`,
/// `/*`).
pub open spec fn opens_comment(c: char, rest: Seq<char>) -> bool {
    c == '/' && rest.len() > 0 && (rest[0] == '/' || rest[0] == '*')
}

pub open spec fn is_digit(c: char) -> bool {
    '0' <= c <= '9'
}

/// The number of leading characters of `s` satisfying `digit`.
pub open spec fn digit_run(s: Seq<char>) -> nat
    decreases s.len(),
{
    if s.len() > 0 && is_digit(s[0]) {
        1 + digit_run(s.drop_first())
    } else {
        0
    }
}

/// The number of leading hyphens of `s`.
pub open spec fn hyphen_run(s: Seq<char>) -> nat
    decreases s.len(),
{
    if s.len() > 0 && s[0] == '-' {
        1 + hyphen_run(s.drop_first())
    } else {
        0
    }
}

/// `n` escaped hyphens.
pub open spec fn escaped_hyphens(n: nat) -> Seq<char>
    decreases n,
{
    if n == 0 {
        seq![]
    } else {
        escaped_hyphens((n - 1) as nat) + seq!['\\', '-']
    }
}

pub proof fn lemma_digit_run_bound(s: Seq<char>)
    ensures
        digit_run(s) <= s.len(),
    decreases s.len(),
{
    if s.len() > 0 && is_digit(s[0]) {
        lemma_digit_run_bound(s.drop_first());
    }
}

pub proof fn lemma_hyphen_run_bound(s: Seq<char>)
    ensures
        hyphen_run(s) <= s.len(),
    decreases s.len(),
{
    if s.len() > 0 && s[0] == '-' {
        lemma_hyphen_run_bound(s.drop_first());
    }
}

/// Markup-escaped `s`, where `line_start` says whether `s` begins a line.
///
/// Special anywhere: `\`, `#`, `$`, `*`, `_`, `` ` ``, `<`, `>`, `@`, `~`,
/// brackets, parentheses, and `.`; and a `/` that would open a comment
/// with the character after it. Special at the start of a line (after any
/// spaces or tabs): `=`, `-`, `+`, `/`, and a digit run followed by `.`.
/// A run of two or more hyphens is escaped whole, so no dash ligature forms.
pub open spec fn escape(s: Seq<char>, line_start: bool) -> Seq<char>
    decreases s.len(),
{
    if s.len() == 0 {
        seq![]
    } else {
        let c = s[0];
        let rest = s.drop_first();
        if line_start && (c == ' ' || c == '\t') {
            seq![c] + escape(rest, true)
        } else if line_start && line_start_special(c) {
            seq!['\\', c] + escape(rest, false)
        } else if line_start && is_digit(c) {
            let n = digit_run(s);
            proof {
                lemma_digit_run_bound(s);
            }
            if n < s.len() && s[n as int] == '.' {
                s.subrange(0, n as int) + seq!['\\', '.'] + escape(s.subrange(n + 1int, s.len() as int), false)
            } else {
                s.subrange(0, n as int) + escape(s.subrange(n as int, s.len() as int), false)
            }
        } else if always_special(c) {
            seq!['\\', c] + escape(rest, false)
        } else if opens_comment(c, rest) {
            seq!['\\', c] + escape(rest, false)
        } else if c == '-' && rest.len() > 0 && rest[0] == '-' {
            let n = hyphen_run(s);
            proof {
                lemma_hyphen_run_bound(s);
                assert(s.drop_first()[0] == '-');
            }
            escaped_hyphens(n) + escape(s.subrange(n as int, s.len() as int), false)
        } else if c == '\n' {
            seq!['\n'] + escape(rest, true)
        } else {
            seq![c] + escape(rest, false)
        }
    }
}

/// Whether the escaping of `s` ends with the writer at the start of a line.
pub open spec fn escape_ends_at_line_start(s: Seq<char>, line_start: bool) -> bool
    decreases s.len(),
{
    if s.len() == 0 {
        line_start
    } else {
        let c = s[0];
        let rest = s.drop_first();
        if line_start && (c == ' ' || c == '\t') {
            escape_ends_at_line_start(rest, true)
        } else if line_start && line_start_special(c) {
            escape_ends_at_line_start(rest, false)
        } else if line_start && is_digit(c) {
            let n = digit_run(s);
            proof {
                lemma_digit_run_bound(s);
            }
            if n < s.len() && s[n as int] == '.' {
                escape_ends_at_line_start(s.subrange(n + 1int, s.len() as int), false)
            } else {
                escape_ends_at_line_start(s.subrange(n as int, s.len() as int), false)
            }
        } else if always_special(c) {
            escape_ends_at_line_start(rest, false)
        } else if opens_comment(c, rest) {
            escape_ends_at_line_start(rest, false)
        } else if c == '-' && rest.len() > 0 && rest[0] == '-' {
            let n = hyphen_run(s);
            proof {
                lemma_hyphen_run_bound(s);
                assert(s.drop_first()[0] == '-');
            }
            escape_ends_at_line_start(s.subrange(n as int, s.len() as int), false)
        } else if c == '\n' {
            escape_ends_at_line_start(rest, true)
        } else {
            escape_ends_at_line_start(rest, false)
        }
    }
}

/// Markup-escape `value`, which begins a line iff `at_line_start`.
pub(crate) fn escape_chars(value: &Vec<char>, at_line_start: bool) -> (r: Vec<char>)
    ensures
        r@ == escape(value@, at_line_start),
{
    let s = value;
    let mut out: Vec<char> = Vec::new();
    let mut line_start = at_line_start;
    let mut i: usize = 0;
    assert(s@.subrange(0, s.len() as int) =~= s@);
    while i < s.len()
        invariant
            i <= s.len(),
            escape(s@, at_line_start) == out@ + escape(s@.subrange(i as int, s.len() as int), line_start),
        decreases s.len() - i,
    {
        let ghost tail = s@.subrange(i as int, s.len() as int);
        let ghost before = out@;
        assert(tail.drop_first() =~= s@.subrange(i + 1, s.len() as int));
        let c = s[i];
        if line_start && (c == ' ' || c == '\t') {
            out.push(c);
            i = i + 1;
        } else if line_start && (c == '=' || c == '-' || c == '+' || c == '/') {
            out.push('\\');
            out.push(c);
            line_start = false;
            i = i + 1;
        } else if line_start && '0' <= c && c <= '9' {
            let mut j = i;
            while j < s.len() && '0' <= s[j] && s[j] <= '9'
                invariant
                    i <= j <= s.len(),
                    digit_run(tail) == (j - i) + digit_run(s@.subrange(j as int, s.len() as int)),
                    forall|k: int| i <= k < j ==> is_digit(s@[k]),
                decreases s.len() - j,
            {
                assert(s@.subrange(j as int, s.len() as int).drop_first() =~= s@.subrange(
                    j + 1,
                    s.len() as int,
                ));
                j = j + 1;
            }
            let ghost n = digit_run(tail);
            assert(n == j - i);
            let mut k = i;
            while k < j
                invariant
                    i <= k <= j <= s.len(),
                    out@ == before + s@.subrange(i as int, k as int),
                decreases j - k,
            {
                out.push(s[k]);
                k = k + 1;
                assert(out@ =~= before + s@.subrange(i as int, k as int));
            }
            assert(tail.subrange(0, n as int) =~= s@.subrange(i as int, j as int));
            if j < s.len() && s[j] == '.' {
                out.push('\\');
                out.push('.');
                assert(tail.subrange(n + 1int, tail.len() as int) =~= s@.subrange(j + 1, s.len() as int));
                i = j + 1;
            } else {
                assert(tail.subrange(n as int, tail.len() as int) =~= s@.subrange(j as int, s.len() as int));
                i = j;
            }
            line_start = false;
        } else if c == '\\' || c == '#' || c == '$' || c == '*' || c == '_' || c == '`' || c == '<'
            || c == '>' || c == '@' || c == '~' || c == '[' || c == ']' || c == '(' || c == ')' || c
            == '.' {
            out.push('\\');
            out.push(c);
            line_start = false;
            i = i + 1;
        } else if c == '/' && i + 1 < s.len() && (s[i + 1] == '/' || s[i + 1] == '*') {
            out.push('\\');
            out.push(c);
            line_start = false;
            i = i + 1;
        } else if c == '-' && i + 1 < s.len() && s[i + 1] == '-' {
            let mut j = i;
            while j < s.len() && s[j] == '-'
                invariant
                    i <= j <= s.len(),
                    hyphen_run(tail) == (j - i) + hyphen_run(s@.subrange(j as int, s.len() as int)),
                    out@ == before + escaped_hyphens((j - i) as nat),
                decreases s.len() - j,
            {
                assert(s@.subrange(j as int, s.len() as int).drop_first() =~= s@.subrange(
                    j + 1,
                    s.len() as int,
                ));
                out.push('\\');
                out.push('-');
                j = j + 1;
            }
            assert(tail.subrange((j - i) as int, tail.len() as int) =~= s@.subrange(j as int, s.len() as int));
            line_start = false;
            i = j;
        } else if c == '\n' {
            out.push('\n');
            line_start = true;
            i = i + 1;
        } else {
            out.push(c);
            line_start = false;
            i = i + 1;
        }
    }
    out
}

/// Escape text for Typst markup, assuming it is not at the start of a line.
pub fn escape_text(value: &str) -> (r: String)
    ensures
        r@ == escape(value@, false),
{
    escape_text_at(value, false)
}

/// Escape text for Typst markup.
///
/// Two classes of character need escaping. The first is special anywhere:
/// `\` (escape), `#` (code), `$` (math), `*`/`_` (strong/emph), `` ` ``
/// (raw), `<`/`>` (labels), `@` (references), `~` (non-breaking space),
/// `[`/`]` (content blocks), parentheses, and `.` (which after a call is
/// field access). The second is special only at the start of a line, where
/// it would begin a heading, list, or term: `=`, `-`, `+`, `/` and a digit
/// run followed by `.`.
pub fn escape_text_at(value: &str, at_line_start: bool) -> (r: String)
    ensures
        r@ == escape(value@, at_line_start),
{
    let chars = chars_of(value);
    let out = escape_chars(&chars, at_line_start);
    string_of(out.as_slice())
}

/// `s` with every line after the first indented by `pad`, empty lines left
/// empty.
pub open spec fn indent(s: Seq<char>, pad: Seq<char>) -> Seq<char>
    decreases s.len(),
{
    if s.len() == 0 {
        seq![]
    } else if s[0] == '\n' {
        seq!['\n'] + (if s.len() > 1 && s[1] != '\n' {
            pad
        } else {
            seq![]
        }) + indent(s.drop_first(), pad)
    } else {
        seq![s[0]] + indent(s.drop_first(), pad)
    }
}

pub(crate) fn indent_chars(value: &Vec<char>, indent_by: usize) -> (r: Vec<char>)
    ensures
        r@ == indent(value@, crate::text::repeat(' ', indent_by as nat)),
{
    let pad = crate::text::repeat_exec(' ', indent_by);
    let mut out: Vec<char> = Vec::new();
    let mut i: usize = 0;
    assert(value@.subrange(0, value.len() as int) =~= value@);
    while i < value.len()
        invariant
            i <= value.len(),
            pad@ == crate::text::repeat(' ', indent_by as nat),
            indent(value@, pad@) == out@ + indent(value@.subrange(i as int, value.len() as int), pad@),
        decreases value.len() - i,
    {
        let ghost tail = value@.subrange(i as int, value.len() as int);
        assert(tail.drop_first() =~= value@.subrange(i + 1, value.len() as int));
        let c = value[i];
        out.push(c);
        if c == '\n' && i + 1 < value.len() && value[i + 1] != '\n' {
            push_chars(&mut out, &pad);
        }
        i = i + 1;
    }
    out
}

/// Indent every line after the first by `indent` spaces.
pub fn indent_continuation(value: &str, indent_by: usize) -> (r: String)
    ensures
        r@ == indent(value@, crate::text::repeat(' ', indent_by as nat)),
{
    let chars = chars_of(value);
    let out = indent_chars(&chars, indent_by);
    string_of(out.as_slice())
}

} // verus!
