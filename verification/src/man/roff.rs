//! roff at the level of one line: comments, arguments, escapes, fonts.

use vstd::prelude::*;

use crate::ir::inline::plain_text;
use crate::ir::Inline;
use crate::man::special::{special, special_exec};
use crate::text::{chars_of, is_ws, seq_eq, slice_chars, string_of, trim_end, trim_end_chars, trim_start};

verus! {

// -- comments and arguments ---------------------------------------------------

/// Where a `\"` or `\#` comment starts, scanning from `i`, with `\\`-escapes
/// stepped over whole.
pub open spec fn comment_start(s: Seq<char>, i: int) -> Option<int>
    decreases s.len() + 1 - i,
{
    if i < 0 || i >= s.len() {
        None
    } else if s[i] == '\\' {
        if i + 1 < s.len() && (s[i + 1] == '"' || s[i + 1] == '#') {
            Some(i)
        } else {
            comment_start(s, i + 2)
        }
    } else {
        comment_start(s, i + 1)
    }
}

/// A line cut at its comment, or, if it has none, without trailing
/// whitespace.
pub open spec fn strip_comment_spec(s: Seq<char>) -> Seq<char> {
    match comment_start(s, 0) {
        Some(p) => s.subrange(0, p),
        None => trim_end(s),
    }
}

/// Cut a line at its `\"` comment, respecting escaped backslashes.
pub(crate) fn strip_comment(line: &Vec<char>) -> (r: Vec<char>)
    ensures
        r@ == strip_comment_spec(line@),
{
    let mut index: usize = 0;
    while index < line.len()
        invariant
            comment_start(line@, 0) == comment_start(line@, index as int),
        decreases line.len() - index,
    {
        if line[index] == '\\' {
            if index + 1 < line.len() && (line[index + 1] == '"' || line[index + 1] == '#') {
                return slice_chars(line, 0, index);
            }
            if index + 1 >= line.len() {
                proof {
                    assert(comment_start(line@, index + 2) is None);
                    assert(comment_start(line@, line.len() as int) is None);
                }
                index = line.len();
            } else {
                index = index + 2;
            }
            continue;
        }
        index = index + 1;
    }
    trim_end_chars(line)
}

/// The body of a `"quoted argument"` starting after the opening quote at
/// `i`, with `""` standing for one quote; and where scanning resumes.
pub open spec fn quoted(s: Seq<char>, i: int, acc: Seq<char>) -> (Seq<char>, int)
    decreases s.len() - i,
{
    if i < 0 || i >= s.len() {
        (acc, s.len() as int)
    } else if s[i] == '"' {
        if i + 1 < s.len() && s[i + 1] == '"' {
            quoted(s, i + 2, acc.push('"'))
        } else {
            (acc, i + 1)
        }
    } else {
        quoted(s, i + 1, acc.push(s[i]))
    }
}

/// The end of the unquoted word starting at `i`.
pub open spec fn word_end(s: Seq<char>, i: int) -> int
    decreases s.len() - i,
{
    if i < 0 || i >= s.len() || is_ws(s[i]) {
        if i < 0 { 0 } else if i >= s.len() { s.len() as int } else { i }
    } else {
        word_end(s, i + 1)
    }
}

pub proof fn lemma_quoted(s: Seq<char>, i: int, acc: Seq<char>)
    requires
        0 <= i <= s.len(),
    ensures
        i <= quoted(s, i, acc).1 <= s.len(),
    decreases s.len() - i,
{
    if i < s.len() {
        if s[i] == '"' {
            if i + 1 < s.len() && s[i + 1] == '"' {
                lemma_quoted(s, i + 2, acc.push('"'));
            }
        } else {
            lemma_quoted(s, i + 1, acc.push(s[i]));
        }
    }
}

pub proof fn lemma_word_end(s: Seq<char>, i: int)
    requires
        0 <= i <= s.len(),
    ensures
        i <= word_end(s, i) <= s.len(),
    decreases s.len() - i,
{
    if i < s.len() && !is_ws(s[i]) {
        lemma_word_end(s, i + 1);
    }
}

/// The arguments of a macro line from `i`: whitespace-separated words, or
/// `"quoted groups"`.
pub open spec fn args_from(s: Seq<char>, i: int) -> Seq<Seq<char>>
    decreases s.len() - i,
{
    if i < 0 || i >= s.len() {
        seq![]
    } else if is_ws(s[i]) {
        args_from(s, i + 1)
    } else if s[i] == '"' {
        let (arg, j) = quoted(s, i + 1, seq![]);
        proof {
            lemma_quoted(s, i + 1, seq![]);
        }
        if j <= i {
            seq![arg]
        } else {
            seq![arg] + args_from(s, j)
        }
    } else {
        let j = word_end(s, i);
        proof {
            lemma_word_end(s, i);
        }
        if j <= i {
            seq![]
        } else {
            seq![s.subrange(i, j)] + args_from(s, j)
        }
    }
}

pub open spec fn views(v: Seq<String>) -> Seq<Seq<char>> {
    v.map_values(|s: String| s@)
}

/// Split macro arguments, honouring roff's `"quoted argument"` form.
pub(crate) fn split_args(rest: &Vec<char>) -> (r: Vec<String>)
    ensures
        views(r@) == args_from(rest@, 0),
{
    let s = rest;
    let mut args: Vec<String> = Vec::new();
    let mut i: usize = 0;
    while i < s.len()
        invariant
            i <= s.len(),
            args_from(s@, 0) == views(args@) + args_from(s@, i as int),
        decreases s.len() - i,
    {
        let c = s[i];
        if is_ws_exec(c) {
            i = i + 1;
            continue;
        }
        let ghost old_args = args@;
        if c == '"' {
            proof {
                lemma_quoted(s@, i + 1, seq![]);
            }
            let (arg, j) = quoted_exec(s, i + 1);
            args.push(string_of(arg.as_slice()));
            assert(views(args@) =~= views(old_args) + seq![arg@]);
            i = j;
        } else {
            let mut j = i;
            while j < s.len() && !is_ws_exec(s[j])
                invariant
                    i <= j <= s.len(),
                    word_end(s@, i as int) == word_end(s@, j as int),
                decreases s.len() - j,
            {
                j = j + 1;
            }
            let word = slice_chars(s, i, j);
            args.push(string_of(word.as_slice()));
            assert(views(args@) =~= views(old_args) + seq![word@]);
            i = j;
        }
    }
    args
}

/// A quoted argument's body, from just after its opening quote.
fn quoted_exec(s: &Vec<char>, start: usize) -> (r: (Vec<char>, usize))
    requires
        start <= s.len(),
    ensures
        (r.0@, r.1 as int) == quoted(s@, start as int, seq![]),
{
    let mut acc: Vec<char> = Vec::new();
    let mut j = start;
    while j < s.len()
        invariant
            start <= j <= s.len(),
            quoted(s@, start as int, seq![]) == quoted(s@, j as int, acc@),
        decreases s.len() - j,
    {
        if s[j] == '"' {
            // `""` inside a quoted argument is a literal quote.
            if j + 1 < s.len() && s[j + 1] == '"' {
                acc.push('"');
                j = j + 2;
                continue;
            }
            return (acc, j + 1);
        }
        acc.push(s[j]);
        j = j + 1;
    }
    (acc, s.len())
}

fn is_ws_exec(c: char) -> (r: bool)
    ensures
        r == is_ws(c),
{
    crate::text::is_whitespace(c)
}

} // verus!

verus! {

// -- fonts and escapes ----------------------------------------------------------

#[derive(Debug, Clone, Copy, PartialEq, Eq)]
pub enum Font {
    Roman,
    Bold,
    Italic,
    BoldItalic,
}

/// A run of text in one font.
pub type Run = (Font, Seq<char>);

/// Whether `inline` is the plain text `text`.
pub open spec fn is_text(inline: Inline, text: Seq<char>) -> bool {
    match inline {
        Inline::Text(t) => t@ == text,
        _ => false,
    }
}

/// Whether `inline` is `text` set in `font`: roman text, strong, emphasis,
/// or strong emphasis.
pub open spec fn wraps(inline: Inline, font: Font, text: Seq<char>) -> bool {
    match font {
        Font::Roman => is_text(inline, text),
        Font::Bold => match inline {
            Inline::Strong(v) => v@.len() == 1 && is_text(v@[0], text),
            _ => false,
        },
        Font::Italic => match inline {
            Inline::Emph(v) => v@.len() == 1 && is_text(v@[0], text),
            _ => false,
        },
        Font::BoldItalic => match inline {
            Inline::Strong(v) => v@.len() == 1 && match v@[0] {
                Inline::Emph(w) => w@.len() == 1 && is_text(w@[0], text),
                _ => false,
            },
            _ => false,
        },
    }
}

/// Whether `inlines` are exactly `runs`, each in its font.
pub open spec fn wraps_all(inlines: Seq<Inline>, runs: Seq<Run>) -> bool {
    inlines.len() == runs.len() && forall|k: int| 0 <= k < runs.len() ==> #[trigger] wraps(inlines[k], runs[k].0, runs[k].1)
}

impl Font {
    pub(crate) fn wrap(self, text: Vec<char>) -> (r: Inline)
        ensures
            wraps(r, self, text@),
    {
        let t = string_of(text.as_slice());
        match self {
            Font::Roman => Inline::Text(t),
            Font::Bold => Inline::Strong(vec![Inline::Text(t)]),
            Font::Italic => Inline::Emph(vec![Inline::Text(t)]),
            Font::BoldItalic => Inline::Strong(vec![Inline::Emph(vec![Inline::Text(t)])]),
        }
    }
}

/// The font a `\f` escape names, if it names one.
pub open spec fn font_of(name: Seq<char>) -> Option<Font> {
    if name == "B"@ || name == "3"@ || name == "CB"@ {
        Some(Font::Bold)
    } else if name == "I"@ || name == "2"@ || name == "CI"@ {
        Some(Font::Italic)
    } else if name == "BI"@ {
        Some(Font::BoldItalic)
    } else if name == "R"@ || name == "1"@ || name == "P"@ || name.len() == 0 || name == "C"@ || name
        == "CR"@ {
        Some(Font::Roman)
    } else {
        None
    }
}

pub(crate) fn is(name: &Vec<char>, lit: &str) -> (r: bool)
    ensures
        r == (name@ == lit@),
{
    seq_eq(name, &chars_of(lit))
}

pub(crate) fn font_of_exec(name: &Vec<char>) -> (r: Option<Font>)
    ensures
        r == font_of(name@),
{
    if is(name, "B") || is(name, "3") || is(name, "CB") {
        Some(Font::Bold)
    } else if is(name, "I") || is(name, "2") || is(name, "CI") {
        Some(Font::Italic)
    } else if is(name, "BI") {
        Some(Font::BoldItalic)
    } else if is(name, "R") || is(name, "1") || is(name, "P") || name.len() == 0 || is(name, "C")
        || is(name, "CR") {
        Some(Font::Roman)
    } else {
        None
    }
}

/// The name of an escape starting at `j`: `x` for `\fx`, `xx` for `\f(xx`,
/// `name` for `\f[name]`; and where scanning resumes.
pub open spec fn esc_name(s: Seq<char>, j: int) -> (Seq<char>, int) {
    if 0 <= j < s.len() && s[j] == '(' {
        let k = if s.len() - j > 3 {
            j + 3
        } else {
            s.len() as int
        };
        (s.subrange(j + 1, k), k)
    } else if 0 <= j < s.len() && s[j] == '[' {
        let k = crate::typst::html::find_from(s, ']', j + 1);
        (s.subrange(j + 1, k), if k < s.len() {
            k + 1
        } else {
            s.len() as int
        })
    } else if 0 <= j < s.len() {
        (seq![s[j]], j + 1)
    } else {
        (seq![], j)
    }
}

/// Where scanning resumes after an escape's argument at `j`: a delimited
/// `'...'` form, a `(xx` or `[name]` form, or one character.
pub open spec fn skip_arg(s: Seq<char>, j: int) -> int {
    if 0 <= j < s.len() && s[j] == '\'' {
        let k = crate::typst::html::find_from(s, '\'', j + 1);
        if k < s.len() {
            k + 1
        } else {
            s.len() as int
        }
    } else if 0 <= j < s.len() && (s[j] == '(' || s[j] == '[') {
        esc_name(s, j).1
    } else if 0 <= j < s.len() {
        j + 1
    } else {
        j
    }
}

pub proof fn lemma_esc_name(s: Seq<char>, j: int)
    requires
        0 <= j <= s.len(),
    ensures
        j <= esc_name(s, j).1 <= s.len(),
        j < s.len() ==> j < esc_name(s, j).1,
        j <= skip_arg(s, j) <= s.len(),
{
    if j < s.len() && s[j] == '[' {
        crate::typst::html::lemma_find_from(s, ']', j + 1);
    }
    if j < s.len() && s[j] == '\'' {
        crate::typst::html::lemma_find_from(s, '\'', j + 1);
    }
}

fn find_char(s: &Vec<char>, c: char, i: usize) -> (r: usize)
    requires
        i <= s.len(),
    ensures
        r == crate::typst::html::find_from(s@, c, i as int),
{
    let mut k = i;
    while k < s.len() && s[k] != c
        invariant
            i <= k <= s.len(),
            crate::typst::html::find_from(s@, c, i as int) == crate::typst::html::find_from(
                s@,
                c,
                k as int,
            ),
        decreases s.len() - k,
    {
        k = k + 1;
    }
    k
}

fn esc_name_exec(s: &Vec<char>, j: usize) -> (r: (Vec<char>, usize))
    requires
        j <= s.len(),
    ensures
        (r.0@, r.1 as int) == esc_name(s@, j as int),
{
    if j < s.len() && s[j] == '(' {
        let k = if s.len() - j > 3 {
            j + 3
        } else {
            s.len()
        };
        (slice_chars(s, j + 1, k), k)
    } else if j < s.len() && s[j] == '[' {
        let k = find_char(s, ']', j + 1);
        proof {
            crate::typst::html::lemma_find_from(s@, ']', j + 1);
        }
        (slice_chars(s, j + 1, k), if k < s.len() {
            k + 1
        } else {
            s.len()
        })
    } else if j < s.len() {
        let mut v: Vec<char> = Vec::new();
        v.push(s[j]);
        (v, j + 1)
    } else {
        (Vec::new(), j)
    }
}

fn skip_arg_exec(s: &Vec<char>, j: usize) -> (r: usize)
    requires
        j <= s.len(),
    ensures
        r == skip_arg(s@, j as int),
{
    if j < s.len() && s[j] == '\'' {
        let k = find_char(s, '\'', j + 1);
        proof {
            crate::typst::html::lemma_find_from(s@, '\'', j + 1);
        }
        if k < s.len() {
            k + 1
        } else {
            s.len()
        }
    } else if j < s.len() && (s[j] == '(' || s[j] == '[') {
        esc_name_exec(s, j).1
    } else if j < s.len() {
        j + 1
    } else {
        j
    }
}

/// Escapes of sizes, motions, widths, registers and device control: no
/// counterpart in a reflowed document, so their argument is skipped.
pub open spec fn skipped_escape(e: char) -> bool {
    e == 's' || e == 'n' || e == 'h' || e == 'v' || e == 'l' || e == 'L' || e == 'w' || e == 'x' || e
        == 'k' || e == 'b' || e == 'd' || e == 'u' || e == 'r' || e == '$' || e == 'X' || e == 'Y'
        || e == 'Z' || e == 'D' || e == 'F' || e == 'H' || e == 'S' || e == 'N' || e == 'M' || e
        == 'm' || e == 'g' || e == 'o' || e == 'p' || e == 'z' || e == 'A' || e == 'B' || e == 'V'
}

/// Zero-width and hyphenation control: no output at all.
pub open spec fn silent_escape(e: char) -> bool {
    e == '&' || e == '%' || e == ')' || e == ':' || e == '{' || e == '}' || e == '|' || e == '^' || e
        == '/' || e == ',' || e == '\n'
}

/// What a one-character escape `\e` puts in the text, for those that put
/// something there directly.
pub open spec fn escape_text_of(e: char) -> Seq<char> {
    if e == 'e' {
        seq!['\\']
    } else if e == '-' {
        seq!['-']
    } else if e == '\'' {
        seq!['\u{b4}']
    } else if e == '`' {
        seq!['`']
    } else if e == '~' || e == ' ' || e == '0' {
        seq![' ']
    } else {
        seq![e]
    }
}

/// Add a finished run, if it holds anything.
pub open spec fn flush(runs: Seq<Run>, font: Font, run: Seq<char>) -> Seq<Run> {
    if run.len() > 0 {
        runs.push((font, run))
    } else {
        runs
    }
}

/// Decoding from position `i`, with the current font, the run being
/// filled, the runs finished, and whether `\c` was seen.
pub open spec fn dec(s: Seq<char>, i: int, font: Font, run: Seq<char>, runs: Seq<Run>, joined: bool) -> (Seq<Run>, Font, bool)
    decreases s.len() - i,
{
    if i < 0 || i >= s.len() {
        (flush(runs, font, run), font, joined)
    } else if s[i] != '\\' {
        dec(s, i + 1, font, run.push(s[i]), runs, joined)
    } else if i + 1 >= s.len() {
        (flush(runs, font, run), font, joined)
    } else {
        let e = s[i + 1];
        let j = i + 2;
        proof {
            lemma_esc_name(s, j);
        }
        if e == 'f' {
            let (name, k) = esc_name(s, j);
            match font_of(name) {
                Some(next) => dec(s, k, next, seq![], flush(runs, font, run), joined),
                None => dec(s, k, font, run, runs, joined),
            }
        } else if e == '(' {
            let k = if s.len() - j > 2 {
                j + 2
            } else {
                s.len() as int
            };
            dec(s, k, font, run + special(s.subrange(j, k)), runs, joined)
        } else if e == '[' {
            proof {
                lemma_esc_name(s, i + 1);
            }
            let (name, k) = esc_name(s, i + 1);
            dec(s, k, font, run + special(name), runs, joined)
        } else if e == '*' {
            let (name, k) = esc_name(s, j);
            dec(s, k, font, run + special(name), runs, joined)
        } else if skipped_escape(e) {
            dec(s, skip_arg(s, j), font, run, runs, joined)
        } else if e == 'c' {
            dec(s, j, font, run, runs, true)
        } else if silent_escape(e) {
            dec(s, j, font, run, runs, joined)
        } else {
            dec(s, j, font, run + escape_text_of(e), runs, joined)
        }
    }
}

/// One text line as font runs, the font left open at its end, and whether
/// it ended in `\c` (continue with no space).
pub open spec fn decode_spec(s: Seq<char>, font: Font) -> (Seq<Run>, Font, bool) {
    dec(s, 0, font, seq![], seq![], false)
}

/// Convert one text line, tracking the font across the call so that a `\fB`
/// left open at end of line still applies to the next one.
///
/// The returned flag is `\c`: the line continues into the next with no space.
pub(crate) fn decode(text: &Vec<char>, font: Font) -> (r: (Vec<Inline>, Font, bool))
    ensures
        wraps_all(r.0@, decode_spec(text@, font).0),
        r.1 == decode_spec(text@, font).1,
        r.2 == decode_spec(text@, font).2,
{
    let s = text;
    let ghost font0 = font;
    let mut out: Vec<Inline> = Vec::new();
    let ghost mut runs: Seq<Run> = seq![];
    let mut run: Vec<char> = Vec::new();
    let mut font = font;
    let mut joined = false;
    let mut i: usize = 0;
    while i < s.len()
        invariant
            i <= s.len(),
            decode_spec(s@, font0) == dec(s@, i as int, font, run@, runs, joined),
            wraps_all(out@, runs),
        ensures
            decode_spec(s@, font0) == dec(s@, i as int, font, run@, runs, joined),
            wraps_all(out@, runs),
            i >= s.len() || (s@[i as int] == '\\' && i + 1 >= s.len()),
        decreases s.len() - i,
    {
        let c = s[i];
        if c != '\\' {
            run.push(c);
            i = i + 1;
            continue;
        }
        if i + 1 >= s.len() {
            break;
        }
        let e = s[i + 1];
        let j = i + 2;
        let ghost r0 = run@;
        proof {
            lemma_esc_name(s@, j as int);
        }
        if e == 'f' {
            let (name, k) = esc_name_exec(s, j);
            match font_of_exec(&name) {
                Some(next) => {
                    if run.len() > 0 {
                        let taken = run;
                        run = Vec::new();
                        let ghost before = out@;
                        out.push(font.wrap(taken));
                        proof {
                            runs = runs.push((font, taken@));
                            assert(wraps(out@[out@.len() - 1], runs[runs.len() - 1].0, runs[runs.len() - 1].1));
                            assert forall|k: int| 0 <= k < runs.len() implies #[trigger] wraps(
                                out@[k],
                                runs[k].0,
                                runs[k].1,
                            ) by {
                                if k < runs.len() - 1 {
                                    assert(out@[k] == before[k]);
                                }
                            }
                        }
                    }
                    assert(run@ =~= Seq::<char>::empty());
                    font = next;
                },
                None => {},
            }
            i = k;
        } else if e == '(' {
            let k = if s.len() - j > 2 {
                j + 2
            } else {
                s.len()
            };
            let name = slice_chars(s, j, k);
            let mut sp = special_exec(&name);
            run.append(&mut sp);
            assert(run@ =~= r0 + special(s@.subrange(j as int, k as int)));
            i = k;
        } else if e == '[' {
            let (name, k) = esc_name_exec(s, i + 1);
            proof {
                lemma_esc_name(s@, i + 1);
            }
            let mut sp = special_exec(&name);
            run.append(&mut sp);
            assert(run@ =~= r0 + special(name@));
            i = k;
        } else if e == '*' {
            let (name, k) = esc_name_exec(s, j);
            let mut sp = special_exec(&name);
            run.append(&mut sp);
            assert(run@ =~= r0 + special(name@));
            i = k;
        } else if is_skipped_escape(e) {
            i = skip_arg_exec(s, j);
        } else if e == 'c' {
            joined = true;
            i = j;
        } else if e == '&' || e == '%' || e == ')' || e == ':' || e == '{' || e == '}' || e == '|'
            || e == '^' || e == '/' || e == ',' || e == '\n' {
            i = j;
        } else {
            if e == 'e' {
                run.push('\\');
            } else if e == '-' {
                run.push('-');
            } else if e == '\'' {
                run.push('\u{b4}');
            } else if e == '`' {
                run.push('`');
            } else if e == '~' || e == ' ' || e == '0' {
                run.push(' ');
            } else {
                run.push(e);
            }
            assert(run@ =~= r0 + escape_text_of(e));
            i = j;
        }
    }
    if run.len() > 0 {
        let ghost before = out@;
        out.push(font.wrap(run));
        proof {
            assert forall|k: int| 0 <= k < out@.len() - 1 implies #[trigger] wraps(
                out@[k],
                runs[k].0,
                runs[k].1,
            ) by {
                assert(out@[k] == before[k]);
            }
        }
    }
    (out, font, joined)
}

fn is_skipped_escape(e: char) -> (r: bool)
    ensures
        r == skipped_escape(e),
{
    e == 's' || e == 'n' || e == 'h' || e == 'v' || e == 'l' || e == 'L' || e == 'w' || e == 'x' || e
        == 'k' || e == 'b' || e == 'd' || e == 'u' || e == 'r' || e == '$' || e == 'X' || e == 'Y'
        || e == 'Z' || e == 'D' || e == 'F' || e == 'H' || e == 'S' || e == 'N' || e == 'M' || e
        == 'm' || e == 'g' || e == 'o' || e == 'p' || e == 'z' || e == 'A' || e == 'B' || e == 'V'
}

} // verus!

verus! {

// -- lines ------------------------------------------------------------------------

/// One roff input line.
pub enum Line {
    Blank,
    Text(Vec<char>),
    Control { name: Vec<char>, args: Vec<String> },
}

/// Whether a line is a request: `.` or the no-break control character `'`.
pub open spec fn is_control(c: Seq<char>) -> bool {
    c.len() > 0 && (c[0] == '.' || c[0] == '\'')
}

/// A request line after its control character, leading blanks dropped.
pub open spec fn request(c: Seq<char>) -> Seq<char> {
    trim_start(c.drop_first())
}

/// The name of a request: up to the first whitespace.
pub open spec fn request_name(c: Seq<char>) -> Seq<char> {
    let rest = request(c);
    rest.subrange(0, crate::typst::html::find_ws(rest, 0))
}

/// The arguments of a request: what follows its name.
pub open spec fn request_args(c: Seq<char>) -> Seq<Seq<char>> {
    let rest = request(c);
    args_from(rest, crate::typst::html::find_ws(rest, 0))
}

impl Line {
    /// Classify one line, with its comment removed.
    pub(crate) fn read(line: &Vec<char>) -> (r: Line)
        ensures
            ({
                let c = strip_comment_spec(line@);
                match r {
                    Line::Blank => !is_control(c) && !crate::text::has_non_ws(c),
                    Line::Text(t) => !is_control(c) && crate::text::has_non_ws(c) && t@ == c,
                    Line::Control { name, args } => is_control(c) && name@ == request_name(c)
                        && views(args@) == request_args(c),
                }
            }),
    {
        let line = strip_comment(line);
        if line.len() == 0 || (line[0] != '.' && line[0] != '\'') {
            if crate::text::has_non_ws_exec(&line) {
                return Line::Text(line);
            }
            return Line::Blank;
        }
        let tail = slice_chars(&line, 1, line.len());
        assert(tail@ =~= line@.drop_first());
        let rest = crate::text::trim_start_chars(&tail);
        let index = crate::typst::html::find_ws_exec(&rest);
        proof {
            crate::typst::html::lemma_find_ws(rest@, 0);
        }
        let name = slice_chars(&rest, 0, index);
        let args_text = slice_chars(&rest, index, rest.len());
        let args = split_args(&args_text);
        proof {
            lemma_args_shift(rest@, index as int);
        }
        Line::Control { name, args }
    }
}

/// Splitting a suffix gives what splitting the whole gives from where the
/// suffix starts.
pub proof fn lemma_args_shift(s: Seq<char>, i: int)
    requires
        0 <= i <= s.len(),
    ensures
        args_from(s.subrange(i, s.len() as int), 0) == args_from(s, i),
    decreases s.len() - i,
{
    let t = s.subrange(i, s.len() as int);
    lemma_args_shift_at(s, i, 0);
}

proof fn lemma_args_shift_at(s: Seq<char>, i: int, k: int)
    requires
        0 <= i <= s.len(),
        0 <= k <= s.len() - i,
    ensures
        args_from(s.subrange(i, s.len() as int), k) == args_from(s, i + k),
    decreases s.len() - i - k,
{
    let t = s.subrange(i, s.len() as int);
    if k < t.len() {
        assert(t[k] == s[i + k]);
        if is_ws(t[k]) {
            lemma_args_shift_at(s, i, k + 1);
        } else if t[k] == '"' {
            lemma_quoted_shift(s, i, k + 1, seq![]);
            lemma_quoted(t, k + 1, seq![]);
            let j = quoted(t, k + 1, seq![]).1;
            if j > k {
                lemma_args_shift_at(s, i, j);
            }
        } else {
            lemma_word_end_shift(s, i, k);
            lemma_word_end(t, k);
            let j = word_end(t, k);
            assert(t.subrange(k, j) =~= s.subrange(i + k, i + j));
            if j > k {
                lemma_args_shift_at(s, i, j);
            }
        }
    }
}

proof fn lemma_quoted_shift(s: Seq<char>, i: int, k: int, acc: Seq<char>)
    requires
        0 <= i <= s.len(),
        0 <= k,
    ensures
        ({
            let t = s.subrange(i, s.len() as int);
            let a = quoted(t, k, acc);
            let b = quoted(s, i + k, acc);
            a.0 == b.0 && a.1 + i == b.1
        }),
    decreases s.len() - i - k,
{
    let t = s.subrange(i, s.len() as int);
    if k < t.len() {
        assert(t[k] == s[i + k]);
        if t[k] == '"' {
            if k + 1 < t.len() && t[k + 1] == '"' {
                assert(t[k + 1] == s[i + k + 1]);
                lemma_quoted_shift(s, i, k + 2, acc.push('"'));
            } else if k + 1 < t.len() {
                assert(t[k + 1] == s[i + k + 1]);
            }
        } else {
            lemma_quoted_shift(s, i, k + 1, acc.push(t[k]));
        }
    }
}

proof fn lemma_word_end_shift(s: Seq<char>, i: int, k: int)
    requires
        0 <= i <= s.len(),
        0 <= k <= s.len() - i,
    ensures
        word_end(s.subrange(i, s.len() as int), k) + i == word_end(s, i + k),
    decreases s.len() - i - k,
{
    let t = s.subrange(i, s.len() as int);
    if k < t.len() {
        assert(t[k] == s[i + k]);
        if !is_ws(t[k]) {
            lemma_word_end_shift(s, i, k + 1);
        }
    }
}

} // verus!

verus! {

// -- font macros and plain text --------------------------------------------------

/// The fonts an alternating-font macro cycles through: `.BR` is bold, then
/// roman, then bold again.
pub open spec fn alt_fonts(name: Seq<char>) -> Seq<Font> {
    if name == "B"@ || name == "SB"@ {
        seq![Font::Bold]
    } else if name == "I"@ {
        seq![Font::Italic]
    } else if name == "R"@ || name == "SM"@ {
        seq![Font::Roman]
    } else if name == "BR"@ {
        seq![Font::Bold, Font::Roman]
    } else if name == "RB"@ {
        seq![Font::Roman, Font::Bold]
    } else if name == "BI"@ {
        seq![Font::Bold, Font::Italic]
    } else if name == "IB"@ {
        seq![Font::Italic, Font::Bold]
    } else if name == "IR"@ {
        seq![Font::Italic, Font::Roman]
    } else if name == "RI"@ {
        seq![Font::Roman, Font::Italic]
    } else {
        seq![Font::Roman]
    }
}

/// The text of argument `k`: a single-font macro joins its arguments with
/// spaces, an alternating one concatenates them.
pub open spec fn alt_text(fonts: Seq<Font>, args: Seq<Seq<char>>, k: int) -> Seq<char> {
    if fonts.len() == 1 && k > 0 {
        seq![' '] + args[k]
    } else {
        args[k]
    }
}

/// The runs of the first `n` arguments of an alternating-font macro.
pub open spec fn alt_runs(name: Seq<char>, args: Seq<Seq<char>>, n: int) -> Seq<Run>
    decreases n,
{
    if n <= 0 {
        seq![]
    } else {
        let fonts = alt_fonts(name);
        alt_runs(name, args, n - 1) + decode_spec(
            alt_text(fonts, args, n - 1),
            fonts[(n - 1) % (fonts.len() as int)],
        ).0
    }
}

pub proof fn lemma_wraps_concat(a: Seq<Inline>, ra: Seq<Run>, b: Seq<Inline>, rb: Seq<Run>)
    requires
        wraps_all(a, ra),
        wraps_all(b, rb),
    ensures
        wraps_all(a + b, ra + rb),
{
    assert forall|k: int| 0 <= k < (ra + rb).len() implies #[trigger] wraps(
        (a + b)[k],
        (ra + rb)[k].0,
        (ra + rb)[k].1,
    ) by {
        if k < ra.len() {
            assert((a + b)[k] == a[k]);
            assert((ra + rb)[k] == ra[k]);
        } else {
            assert((a + b)[k] == b[k - a.len()]);
            assert((ra + rb)[k] == rb[k - ra.len()]);
        }
    }
}

fn alt_fonts_exec(name: &Vec<char>) -> (r: Vec<Font>)
    ensures
        r@ == alt_fonts(name@),
{
    let mut v: Vec<Font> = Vec::new();
    if is(name, "B") || is(name, "SB") {
        v.push(Font::Bold);
    } else if is(name, "I") {
        v.push(Font::Italic);
    } else if is(name, "R") || is(name, "SM") {
        v.push(Font::Roman);
    } else if is(name, "BR") {
        v.push(Font::Bold);
        v.push(Font::Roman);
    } else if is(name, "RB") {
        v.push(Font::Roman);
        v.push(Font::Bold);
    } else if is(name, "BI") {
        v.push(Font::Bold);
        v.push(Font::Italic);
    } else if is(name, "IB") {
        v.push(Font::Italic);
        v.push(Font::Bold);
    } else if is(name, "IR") {
        v.push(Font::Italic);
        v.push(Font::Roman);
    } else if is(name, "RI") {
        v.push(Font::Roman);
        v.push(Font::Italic);
    } else {
        v.push(Font::Roman);
    }
    assert(v@ =~= alt_fonts(name@));
    v
}

/// The alternating-font macros: `.BR ls (1)` is bold `ls` immediately
/// followed by roman `(1)`, with no space between arguments.
pub(crate) fn alternating(name: &Vec<char>, args: &Vec<String>) -> (r: Vec<Inline>)
    ensures
        wraps_all(r@, alt_runs(name@, views(args@), args.len() as int)),
{
    let fonts = alt_fonts_exec(name);
    let ghost a = views(args@);
    let mut out: Vec<Inline> = Vec::new();
    let mut index: usize = 0;
    while index < args.len()
        invariant
            index <= args.len(),
            fonts@ == alt_fonts(name@),
            a == views(args@),
            wraps_all(out@, alt_runs(name@, a, index as int)),
        decreases args.len() - index,
    {
        let arg = chars_of(args[index].as_str());
        let mut text: Vec<char> = Vec::new();
        if fonts.len() == 1 && index > 0 {
            text.push(' ');
        }
        let mut tail = arg;
        text.append(&mut tail);
        assert(text@ =~= alt_text(fonts@, a, index as int));
        let inner = fonts[index % fonts.len()];
        let (mut inlines, _, _) = decode(&text, inner);
        let ghost before = out@;
        let ghost piece = inlines@;
        out.append(&mut inlines);
        proof {
            lemma_wraps_concat(
                before,
                alt_runs(name@, a, index as int),
                piece,
                decode_spec(text@, inner).0,
            );
        }
        index = index + 1;
    }
    out
}

/// The text of a run sequence, fonts dropped.
pub open spec fn runs_text(runs: Seq<Run>) -> Seq<char>
    decreases runs.len(),
{
    if runs.len() == 0 {
        seq![]
    } else {
        runs_text(runs.drop_last()) + runs.last().1
    }
}

/// A line's text with all markup resolved: what the page would print.
pub open spec fn plain_spec(s: Seq<char>) -> Seq<char> {
    runs_text(decode_spec(s, Font::Roman).0)
}

proof fn lemma_plain_single(v: Seq<Inline>)
    requires
        v.len() == 1,
    ensures
        plain_text(v) == crate::ir::inline::plain_inline(v[0]),
{
    assert(v.subrange(0, 0) =~= Seq::<Inline>::empty());
    assert(plain_text(Seq::<Inline>::empty()) == Seq::<char>::empty());
    assert(plain_text(v) =~= plain_text(v.subrange(0, 0)) + crate::ir::inline::plain_inline(v[0]));
}

pub proof fn lemma_plain_wraps(inl: Seq<Inline>, runs: Seq<Run>)
    requires
        wraps_all(inl, runs),
    ensures
        plain_text(inl) == runs_text(runs),
    decreases runs.len(),
{
    if runs.len() > 0 {
        let n = runs.len() - 1;
        let head = inl.subrange(0, n);
        assert(wraps_all(head, runs.drop_last())) by {
            assert forall|k: int| 0 <= k < n implies #[trigger] wraps(
                head[k],
                runs.drop_last()[k].0,
                runs.drop_last()[k].1,
            ) by {
                assert(wraps(inl[k], runs[k].0, runs[k].1));
            }
        }
        lemma_plain_wraps(head, runs.drop_last());
        assert(wraps(inl[n], runs[n].0, runs[n].1));
        match inl[n] {
            Inline::Strong(v) => {
                lemma_plain_single(v@);
                match v@[0] {
                    Inline::Emph(w) => {
                        lemma_plain_single(w@);
                    },
                    _ => {},
                }
            },
            Inline::Emph(v) => {
                lemma_plain_single(v@);
            },
            _ => {},
        }
        assert(crate::ir::inline::plain_inline(inl[n]) == runs[n].1);
    }
}

/// A line's text with all markup resolved.
pub(crate) fn plain(text: &Vec<char>) -> (r: Vec<char>)
    ensures
        r@ == plain_spec(text@),
{
    let (inlines, _, _) = decode(text, Font::Roman);
    proof {
        lemma_plain_wraps(inlines@, decode_spec(text@, Font::Roman).0);
    }
    let s = crate::ir::to_plain_text(&inlines);
    chars_of(s.as_str())
}

/// `plain`, as a `String`.
pub(crate) fn plain_string(text: &Vec<char>) -> (r: String)
    ensures
        r@ == plain_spec(text@),
{
    let v = plain(text);
    string_of(v.as_slice())
}

/// `s` without trailing `.` and `)`.
pub open spec fn trim_marks(s: Seq<char>) -> Seq<char>
    decreases s.len(),
{
    if s.len() > 0 && (s.last() == '.' || s.last() == ')') {
        trim_marks(s.drop_last())
    } else {
        s
    }
}

pub open spec fn all_digits(s: Seq<char>) -> bool {
    forall|i: int| 0 <= i < s.len() ==> '0' <= #[trigger] s[i] <= '9'
}

/// The bullet of an `.IP` tag, if it is one: `Some(ordered)`.
pub open spec fn bullet_spec(tag: Seq<char>) -> Option<bool> {
    let t = crate::text::trim(plain_spec(tag));
    if t == "\u{2022}"@ || t == "*"@ || t == "-"@ || t == "\u{2013}"@ || t == "o"@ {
        Some(false)
    } else {
        let d = trim_marks(t);
        if d.len() > 0 && all_digits(d) {
            Some(true)
        } else {
            None
        }
    }
}

pub(crate) fn bullet(tag: &Vec<char>) -> (r: Option<bool>)
    ensures
        r == bullet_spec(tag@),
{
    let p = plain(tag);
    let t = crate::text::trim_chars(&p);
    if is(&t, "\u{2022}") || is(&t, "*") || is(&t, "-") || is(&t, "\u{2013}") || is(&t, "o") {
        return Some(false);
    }
    let mut end = t.len();
    assert(t@.subrange(0, end as int) =~= t@);
    while end > 0 && (t[end - 1] == '.' || t[end - 1] == ')')
        invariant
            end <= t.len(),
            trim_marks(t@) == trim_marks(t@.subrange(0, end as int)),
        decreases end,
    {
        assert(t@.subrange(0, end - 1) =~= t@.subrange(0, end as int).drop_last());
        end = end - 1;
    }
    let ghost d = t@.subrange(0, end as int);
    assert(trim_marks(d) == d);
    if end == 0 {
        return None;
    }
    assert(bullet_spec(tag@) == (if all_digits(d) {
        Some(true)
    } else {
        None::<bool>
    }));
    let mut k: usize = 0;
    while k < end
        invariant
            k <= end <= t.len(),
            d == t@.subrange(0, end as int),
            bullet_spec(tag@) == (if all_digits(d) {
                Some(true)
            } else {
                None::<bool>
            }),
            forall|i: int| 0 <= i < k ==> '0' <= #[trigger] d[i] <= '9',
        decreases end - k,
    {
        if !('0' <= t[k] && t[k] <= '9') {
            assert(!('0' <= d[k as int] <= '9'));
            return None;
        }
        k = k + 1;
    }
    Some(true)
}

} // verus!
