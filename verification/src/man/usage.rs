//! Laying out a SYNOPSIS usage line.

use vstd::prelude::*;

use crate::text::{
    char_views, is_ws, is_whitespace, join, join_exec, push_chars, repeat, repeat_exec, skip_ws,
    skip_ws_exec, slice_chars, trim_end, trim_end_chars,
};

verus! {

/// The widest line a wrapped usage may reach by joining groups.
pub const WIDTH: usize = 72;

/// Beyond this a hanging indent wastes more room than it buys in clarity.
pub const MAX_INDENT: usize = 16;

pub open spec fn opener(c: char) -> bool {
    c == '[' || c == '(' || c == '{' || c == '<'
}

pub open spec fn closer(c: char) -> bool {
    c == ']' || c == ')' || c == '}' || c == '>'
}

/// Scanning a usage line up to `n`: the groups finished, the group being
/// read, and the bracket depth.
pub open spec fn scan_groups(s: Seq<char>, n: int) -> (Seq<Seq<char>>, Seq<char>, nat)
    decreases n,
{
    if n <= 0 {
        (seq![], seq![], 0)
    } else {
        let (groups, current, depth) = scan_groups(s, n - 1);
        let c = s[n - 1];
        if opener(c) {
            (groups, current.push(c), depth + 1)
        } else if closer(c) {
            (groups, current.push(c), if depth > 0 {
                (depth - 1) as nat
            } else {
                0
            })
        } else if is_ws(c) && depth == 0 {
            if current.len() > 0 {
                (groups.push(current), seq![], depth)
            } else {
                (groups, current, depth)
            }
        } else {
            (groups, current.push(c), depth)
        }
    }
}

/// A usage line split at the spaces that are not inside a bracketed group.
pub open spec fn usage_groups_spec(s: Seq<char>) -> Seq<Seq<char>> {
    let (groups, current, _) = scan_groups(s, s.len() as int);
    if current.len() > 0 {
        groups.push(current)
    } else {
        groups
    }
}

/// Split a usage line at spaces that are not inside a bracketed group.
pub(crate) fn usage_groups(line: &Vec<char>) -> (r: Vec<Vec<char>>)
    ensures
        char_views(r@) == usage_groups_spec(line@),
{
    let mut groups: Vec<Vec<char>> = Vec::new();
    let mut current: Vec<char> = Vec::new();
    let mut depth: usize = 0;
    let mut i: usize = 0;
    while i < line.len()
        invariant
            i <= line.len(),
            depth <= i,
            scan_groups(line@, i as int) == (char_views(groups@), current@, depth as nat),
        decreases line.len() - i,
    {
        let c = line[i];
        let ghost g0 = groups@;
        if c == '[' || c == '(' || c == '{' || c == '<' {
            depth = depth + 1;
            current.push(c);
        } else if c == ']' || c == ')' || c == '}' || c == '>' {
            if depth > 0 {
                depth = depth - 1;
            }
            current.push(c);
        } else if is_whitespace(c) && depth == 0 {
            if current.len() > 0 {
                let mut taken: Vec<char> = Vec::new();
                std::mem::swap(&mut taken, &mut current);
                groups.push(taken);
                assert(char_views(groups@) =~= char_views(g0).push(taken@));
            }
        } else {
            current.push(c);
        }
        i = i + 1;
    }
    if current.len() > 0 {
        let ghost g0 = groups@;
        groups.push(current);
        assert(char_views(groups@) =~= char_views(g0).push(current@));
    }
    groups
}

/// Whether a group is an option or an optional part: `[...]` or `-x`.
pub open spec fn option_group(g: Seq<char>) -> bool {
    g.len() > 0 && (g[0] == '[' || g[0] == '-')
}

/// The lines of a wrapped usage after the first `k` groups of `rest`: each
/// group joins the last line when that keeps it within the width, and
/// starts a new, indented line otherwise.
pub open spec fn wrap_lines(first: Seq<char>, indent: Seq<char>, rest: Seq<Seq<char>>, k: int) -> Seq<
    Seq<char>,
>
    decreases k,
{
    if k <= 0 {
        seq![first]
    } else {
        let lines = wrap_lines(first, indent, rest, k - 1);
        let current = lines.last();
        let group = rest[k - 1];
        if current.len() + 1 + group.len() <= WIDTH {
            lines.drop_last().push(current + seq![' '] + group)
        } else {
            lines.push(indent + group)
        }
    }
}

/// A usage line as a hand-written SYNOPSIS lays it out: left as it is when
/// it fits, or when it is not a usage line at all; otherwise broken at
/// top-level spaces with continuations hanging under the command name.
pub open spec fn wrap_usage_spec(line: Seq<char>) -> Seq<char> {
    let trimmed = trim_end(line);
    let lead = skip_ws(trimmed, 0);
    let leading = trimmed.subrange(0, lead);
    let groups = usage_groups_spec(trimmed.subrange(lead, trimmed.len() as int));
    if trimmed.len() <= WIDTH || groups.len() <= 1 || !(exists|i: int|
        1 <= i < groups.len() && #[trigger] option_group(groups[i])) {
        trimmed
    } else {
        let command = groups[0];
        let rest = groups.drop_first();
        let width = if command.len() + 1 <= MAX_INDENT {
            command.len() + 1
        } else {
            MAX_INDENT as nat
        };
        let indent = leading + repeat(' ', width as nat);
        join(wrap_lines(leading + command, indent, rest, rest.len() as int), "\n"@)
    }
}

/// Break a long usage line the way a hand-written SYNOPSIS is laid out: one
/// continuation per fill, hanging-indented under the command name.
///
/// Generators emit the whole usage on one line, which renders as an
/// unreadable ribbon in a raw block that does not soft-wrap. A break is only
/// ever inserted at a top-level space, so a bracketed alternation like
/// `[-o|--output <FILE>]` stays whole.
pub(crate) fn wrap_usage(line: &Vec<char>) -> (r: Vec<char>)
    ensures
        r@ == wrap_usage_spec(line@),
{
    let trimmed = trim_end_chars(line);
    if trimmed.len() <= WIDTH {
        return trimmed;
    }
    let lead = skip_ws_exec(&trimmed, 0);
    proof {
        crate::text::lemma_skip_ws(trimmed@, 0);
    }
    let leading = slice_chars(&trimmed, 0, lead);
    let body = slice_chars(&trimmed, lead, trimmed.len());
    let groups = usage_groups(&body);
    let ghost gs = char_views(groups@);
    if groups.len() <= 1 {
        return trimmed;
    }
    // A SYNOPSIS section sometimes holds prose rather than usage. Reflowing a
    // sentence under a hanging indent helps nobody, so only a line carrying
    // option or bracket groups is treated as a usage line.
    let mut is_usage = false;
    let mut i: usize = 1;
    while i < groups.len()
        invariant
            1 <= i <= groups.len(),
            gs == char_views(groups@),
            is_usage == exists|j: int| 1 <= j < i && #[trigger] option_group(gs[j]),
        decreases groups.len() - i,
    {
        let g = &groups[i];
        if g.len() > 0 && (g[0] == '[' || g[0] == '-') {
            assert(option_group(gs[i as int]));
            is_usage = true;
        }
        proof {
            if !option_group(gs[i as int]) {
                assert forall|j: int| 1 <= j < i + 1 && #[trigger] option_group(gs[j]) implies j
                    < i by {}
            }
        }
        i = i + 1;
    }
    if !is_usage {
        return trimmed;
    }
    let command = &groups[0];
    let width = if command.len() < MAX_INDENT {
        command.len() + 1
    } else {
        MAX_INDENT
    };
    let mut indent = slice_chars(&leading, 0, leading.len());
    push_chars(&mut indent, &repeat_exec(' ', width));
    let mut first = slice_chars(&leading, 0, leading.len());
    push_chars(&mut first, command);
    let ghost rest = gs.drop_first();
    assert(first@ =~= leading@ + gs[0]);
    assert(indent@ =~= leading@ + repeat(' ', width as nat));
    let mut lines: Vec<Vec<char>> = Vec::new();
    lines.push(first);
    assert(char_views(lines@) =~= seq![leading@ + gs[0]]);
    let mut k: usize = 1;
    while k < groups.len()
        invariant
            1 <= k <= groups.len(),
            gs == char_views(groups@),
            rest == gs.drop_first(),
            char_views(lines@) == wrap_lines(leading@ + gs[0], indent@, rest, k - 1),
            lines@.len() >= 1,
        decreases groups.len() - k,
    {
        let group = &groups[k];
        let ghost before = char_views(lines@);
        assert(rest[k - 1] == gs[k as int]);
        let current = lines.pop().unwrap();
        assert(current@ == before.last());
        assert(char_views(lines@) =~= before.drop_last());
        let ghost popped = char_views(lines@);
        if current.len() < usize::MAX - group.len() && current.len() + 1 + group.len() <= WIDTH {
            let mut extended = current;
            extended.push(' ');
            push_chars(&mut extended, group);
            assert(extended@ =~= before.last() + seq![' '] + gs[k as int]);
            lines.push(extended);
            assert(char_views(lines@) =~= popped.push(extended@));
        } else {
            lines.push(current);
            assert(char_views(lines@) =~= before);
            let ghost restored = char_views(lines@);
            let mut next = slice_chars(&indent, 0, indent.len());
            push_chars(&mut next, group);
            assert(next@ =~= indent@ + gs[k as int]);
            lines.push(next);
            assert(char_views(lines@) =~= restored.push(next@));
        }
        k = k + 1;
    }
    proof {
        assert(trimmed@.subrange(0, lead as int) == leading@);
        assert(trimmed@.subrange(lead as int, trimmed@.len() as int) == body@);
        assert(option_group(gs[1]) || exists|j: int| 1 <= j < gs.len() && #[trigger] option_group(gs[j]));
        assert(wrap_usage_spec(line@) == join(
            wrap_lines(leading@ + gs[0], indent@, rest, rest.len() as int),
            "\n"@,
        ));
    }
    join_exec(&lines, "\n")
}

} // verus!
