//! roff's special characters and predefined strings.

use vstd::prelude::*;

use crate::man::roff::is;
use crate::text::{chars_of, slice_chars};

verus! {

/// The glyph a special-character name stands for, for the names this
/// reader knows.
pub open spec fn known_special(name: Seq<char>) -> Option<Seq<char>> {
    if name == "bu"@ {
        Some("\u{2022}"@)
    } else if name == "em"@ || name == "-"@ {
        Some("\u{2014}"@)
    } else if name == "en"@ {
        Some("\u{2013}"@)
    } else if name == "hy"@ {
        Some("-"@)
    } else if name == "aq"@ || name == "Aq"@ {
        Some("'"@)
    } else if name == "dq"@ || name == "\""@ {
        Some("\""@)
    } else if name == "lq"@ || name == "Lq"@ {
        Some("\u{201C}"@)
    } else if name == "rq"@ || name == "Rq"@ {
        Some("\u{201D}"@)
    } else if name == "oq"@ {
        Some("\u{2018}"@)
    } else if name == "cq"@ {
        Some("\u{2019}"@)
    } else if name == "ga"@ {
        Some("`"@)
    } else if name == "rs"@ {
        Some("\\"@)
    } else if name == "sl"@ {
        Some("/"@)
    } else if name == "ba"@ || name == "bv"@ {
        Some("|"@)
    } else if name == "ti"@ {
        Some("~"@)
    } else if name == "ha"@ {
        Some("^"@)
    } else if name == "at"@ {
        Some("@"@)
    } else if name == "sh"@ {
        Some("#"@)
    } else if name == "Do"@ {
        Some("$"@)
    } else if name == "pc"@ {
        Some("\u{00B7}"@)
    } else if name == "co"@ || name == "Co"@ {
        Some("\u{00A9}"@)
    } else if name == "rg"@ || name == "Rg"@ {
        Some("\u{00AE}"@)
    } else if name == "tm"@ || name == "Tm"@ {
        Some("\u{2122}"@)
    } else if name == "de"@ || name == "De"@ {
        Some("\u{00B0}"@)
    } else if name == "mu"@ {
        Some("\u{00D7}"@)
    } else if name == "di"@ {
        Some("\u{00F7}"@)
    } else if name == "+-"@ || name == "Pm"@ {
        Some("\u{00B1}"@)
    } else if name == "<="@ {
        Some("\u{2264}"@)
    } else if name == ">="@ {
        Some("\u{2265}"@)
    } else if name == "!="@ {
        Some("\u{2260}"@)
    } else if name == "=="@ {
        Some("\u{2261}"@)
    } else if name == "~~"@ || name == "ap"@ {
        Some("\u{2248}"@)
    } else if name == "->"@ {
        Some("\u{2192}"@)
    } else if name == "<-"@ {
        Some("\u{2190}"@)
    } else if name == "ua"@ {
        Some("\u{2191}"@)
    } else if name == "da"@ {
        Some("\u{2193}"@)
    } else if name == "la"@ {
        Some("\u{27E8}"@)
    } else if name == "ra"@ {
        Some("\u{27E9}"@)
    } else if name == "lB"@ {
        Some("["@)
    } else if name == "rB"@ {
        Some("]"@)
    } else if name == "lC"@ {
        Some("{"@)
    } else if name == "rC"@ {
        Some("}"@)
    } else if name == "or"@ {
        Some("|"@)
    } else if name == "es"@ {
        Some("\u{2205}"@)
    } else if name == "if"@ {
        Some("\u{221E}"@)
    } else if name == "*a"@ {
        Some("\u{03B1}"@)
    } else if name == "*b"@ {
        Some("\u{03B2}"@)
    } else if name == "*p"@ {
        Some("\u{03C0}"@)
    } else if name == "*m"@ {
        Some("\u{03BC}"@)
    } else if name == "R"@ {
        Some("\u{00AE}"@)
    } else if name == "C"@ {
        Some("\u{00A9}"@)
    } else {
        None
    }
}

fn known_special_exec(name: &Vec<char>) -> (r: Option<Vec<char>>)
    ensures
        match r {
            Some(v) => known_special(name@) == Some(v@),
            None => known_special(name@) is None,
        },
{
    if is(name, "bu") {
        Some(chars_of("\u{2022}"))
    } else if is(name, "em") || is(name, "-") {
        Some(chars_of("\u{2014}"))
    } else if is(name, "en") {
        Some(chars_of("\u{2013}"))
    } else if is(name, "hy") {
        Some(chars_of("-"))
    } else if is(name, "aq") || is(name, "Aq") {
        Some(chars_of("'"))
    } else if is(name, "dq") || is(name, "\"") {
        Some(chars_of("\""))
    } else if is(name, "lq") || is(name, "Lq") {
        Some(chars_of("\u{201C}"))
    } else if is(name, "rq") || is(name, "Rq") {
        Some(chars_of("\u{201D}"))
    } else if is(name, "oq") {
        Some(chars_of("\u{2018}"))
    } else if is(name, "cq") {
        Some(chars_of("\u{2019}"))
    } else if is(name, "ga") {
        Some(chars_of("`"))
    } else if is(name, "rs") {
        Some(chars_of("\\"))
    } else if is(name, "sl") {
        Some(chars_of("/"))
    } else if is(name, "ba") || is(name, "bv") {
        Some(chars_of("|"))
    } else if is(name, "ti") {
        Some(chars_of("~"))
    } else if is(name, "ha") {
        Some(chars_of("^"))
    } else if is(name, "at") {
        Some(chars_of("@"))
    } else if is(name, "sh") {
        Some(chars_of("#"))
    } else if is(name, "Do") {
        Some(chars_of("$"))
    } else if is(name, "pc") {
        Some(chars_of("\u{00B7}"))
    } else if is(name, "co") || is(name, "Co") {
        Some(chars_of("\u{00A9}"))
    } else if is(name, "rg") || is(name, "Rg") {
        Some(chars_of("\u{00AE}"))
    } else if is(name, "tm") || is(name, "Tm") {
        Some(chars_of("\u{2122}"))
    } else if is(name, "de") || is(name, "De") {
        Some(chars_of("\u{00B0}"))
    } else if is(name, "mu") {
        Some(chars_of("\u{00D7}"))
    } else if is(name, "di") {
        Some(chars_of("\u{00F7}"))
    } else if is(name, "+-") || is(name, "Pm") {
        Some(chars_of("\u{00B1}"))
    } else if is(name, "<=") {
        Some(chars_of("\u{2264}"))
    } else if is(name, ">=") {
        Some(chars_of("\u{2265}"))
    } else if is(name, "!=") {
        Some(chars_of("\u{2260}"))
    } else if is(name, "==") {
        Some(chars_of("\u{2261}"))
    } else if is(name, "~~") || is(name, "ap") {
        Some(chars_of("\u{2248}"))
    } else if is(name, "->") {
        Some(chars_of("\u{2192}"))
    } else if is(name, "<-") {
        Some(chars_of("\u{2190}"))
    } else if is(name, "ua") {
        Some(chars_of("\u{2191}"))
    } else if is(name, "da") {
        Some(chars_of("\u{2193}"))
    } else if is(name, "la") {
        Some(chars_of("\u{27E8}"))
    } else if is(name, "ra") {
        Some(chars_of("\u{27E9}"))
    } else if is(name, "lB") {
        Some(chars_of("["))
    } else if is(name, "rB") {
        Some(chars_of("]"))
    } else if is(name, "lC") {
        Some(chars_of("{"))
    } else if is(name, "rC") {
        Some(chars_of("}"))
    } else if is(name, "or") {
        Some(chars_of("|"))
    } else if is(name, "es") {
        Some(chars_of("\u{2205}"))
    } else if is(name, "if") {
        Some(chars_of("\u{221E}"))
    } else if is(name, "*a") {
        Some(chars_of("\u{03B1}"))
    } else if is(name, "*b") {
        Some(chars_of("\u{03B2}"))
    } else if is(name, "*p") {
        Some(chars_of("\u{03C0}"))
    } else if is(name, "*m") {
        Some(chars_of("\u{03BC}"))
    } else if is(name, "R") {
        Some(chars_of("\u{00AE}"))
    } else if is(name, "C") {
        Some(chars_of("\u{00A9}"))
    } else {
        None
    }
}

/// The value of a hexadecimal digit.
pub open spec fn hex_digit(c: char) -> Option<int> {
    if '0' <= c <= '9' {
        Some(c as int - '0' as int)
    } else if 'a' <= c <= 'f' {
        Some(c as int - 'a' as int + 10)
    } else if 'A' <= c <= 'F' {
        Some(c as int - 'A' as int + 10)
    } else {
        None
    }
}

/// The value of a run of hexadecimal digits, most significant first.
pub open spec fn hex_value(d: Seq<char>) -> int
    decreases d.len(),
{
    if d.len() == 0 {
        0
    } else {
        hex_value(d.drop_last()) * 16 + match hex_digit(d.last()) {
            Some(v) => v,
            None => 0,
        }
    }
}

/// Whether every character of `d` is a hexadecimal digit.
pub open spec fn all_hex(d: Seq<char>) -> bool {
    forall|i: int| 0 <= i < d.len() ==> #[trigger] hex_digit(d[i]) is Some
}

/// The digits of a number: `s` without one leading `+`.
pub open spec fn unsigned_digits(s: Seq<char>) -> Seq<char> {
    if s.len() > 0 && s[0] == '+' {
        s.drop_first()
    } else {
        s
    }
}

/// What `u32::from_str_radix(s, 16)` accepts and gives: an optional `+`,
/// then one or more hexadecimal digits whose value fits in 32 bits.
pub open spec fn parse_hex(s: Seq<char>) -> Option<u32> {
    let d = unsigned_digits(s);
    if d.len() > 0 && all_hex(d) && hex_value(d) <= u32::MAX {
        Some(hex_value(d) as u32)
    } else {
        None
    }
}

/// Whether `v` is a Unicode scalar value: the values `char::from_u32`
/// accepts.
pub open spec fn scalar(v: u32) -> bool {
    v <= 0x10FFFF && !(0xD800 <= v <= 0xDFFF)
}

/// A roff special character or predefined string, as text: the known
/// glyphs, `u` and a hexadecimal code point, and otherwise the name itself.
pub open spec fn special(name: Seq<char>) -> Seq<char> {
    match known_special(name) {
        Some(t) => t,
        None => {
            let code = parse_hex(name.drop_first());
            if name.len() > 0 && name[0] == 'u' && code is Some && scalar(code->0) {
                seq![code->0 as char]
            } else {
                name
            }
        },
    }
}

proof fn lemma_hex_prefix(d: Seq<char>, j: int)
    requires
        0 <= j <= d.len(),
        forall|i: int| 0 <= i < d.len() ==> #[trigger] hex_digit(d[i]) is Some,
    ensures
        0 <= hex_value(d.take(j)) <= hex_value(d),
    decreases d.len(),
{
    if j == d.len() {
        assert(d.take(j) =~= d);
        lemma_hex_nonneg(d);
    } else {
        let p = d.drop_last();
        assert(p.take(j) =~= d.take(j));
        lemma_hex_prefix(p, j);
        assert(hex_digit(d[d.len() - 1]) is Some);
    }
}

proof fn lemma_hex_nonneg(d: Seq<char>)
    requires
        forall|i: int| 0 <= i < d.len() ==> #[trigger] hex_digit(d[i]) is Some,
    ensures
        hex_value(d) >= 0,
    decreases d.len(),
{
    if d.len() > 0 {
        let p = d.drop_last();
        assert forall|i: int| 0 <= i < p.len() implies #[trigger] hex_digit(p[i]) is Some by {
            assert(p[i] == d[i]);
        }
        lemma_hex_nonneg(p);
        assert(hex_digit(d[d.len() - 1]) is Some);
    }
}

fn hex_digit_exec(c: char) -> (r: Option<u32>)
    ensures
        match r {
            Some(v) => hex_digit(c) == Some(v as int),
            None => hex_digit(c) is None,
        },
{
    if '0' <= c && c <= '9' {
        Some((c as u32) - ('0' as u32))
    } else if 'a' <= c && c <= 'f' {
        Some((c as u32) - ('a' as u32) + 10)
    } else if 'A' <= c && c <= 'F' {
        Some((c as u32) - ('A' as u32) + 10)
    } else {
        None
    }
}

/// `u32::from_str_radix` in base 16, on `s` from `from`.
pub(crate) fn parse_hex_exec(s: &Vec<char>, from: usize) -> (r: Option<u32>)
    requires
        from <= s.len(),
    ensures
        r == parse_hex(s@.subrange(from as int, s.len() as int)),
{
    let ghost t = s@.subrange(from as int, s.len() as int);
    let start = if from < s.len() && s[from] == '+' {
        from + 1
    } else {
        from
    };
    let ghost d = s@.subrange(start as int, s.len() as int);
    proof {
        if from < s.len() && s[from as int] == '+' {
            assert(d =~= t.drop_first());
        } else {
            assert(d =~= t);
        }
    }
    if start >= s.len() {
        return None;
    }
    let mut acc: u64 = 0;
    let mut i = start;
    while i < s.len()
        invariant
            start <= i <= s.len(),
            start < s.len(),
            d == s@.subrange(start as int, s.len() as int),
            t == s@.subrange(from as int, s.len() as int),
            d == unsigned_digits(t),
            acc <= u32::MAX,
            acc == hex_value(s@.subrange(start as int, i as int)),
            forall|k: int| start <= k < i ==> #[trigger] hex_digit(s@[k]) is Some,
        decreases s.len() - i,
    {
        let digit = match hex_digit_exec(s[i]) {
            Some(v) => v,
            None => {
                proof {
                    assert(d[i - start] == s@[i as int]);
                    assert(hex_digit(d[i - start]) is None);
                    assert(!all_hex(d));
                    assert(parse_hex(t) is None);
                }
                return None;
            },
        };
        let ghost before = s@.subrange(start as int, i as int);
        let ghost after = s@.subrange(start as int, i + 1);
        assert(after.drop_last() =~= before);
        assert(after.last() == s@[i as int]);
        assert(hex_value(after) == acc * 16 + digit);
        let next = acc * 16 + digit as u64;
        if next > 0xFFFF_FFFF {
            proof {
                if all_hex(d) {
                    assert(d.take(i + 1 - start) =~= after);
                    lemma_hex_prefix(d, i + 1 - start);
                    assert(hex_value(d) > u32::MAX);
                }
                assert(parse_hex(t) is None);
            }
            return None;
        }
        acc = next;
        i = i + 1;
    }
    proof {
        assert(d =~= s@.subrange(start as int, i as int));
        assert forall|k: int| 0 <= k < d.len() implies #[trigger] hex_digit(d[k]) is Some by {
            assert(d[k] == s@[start + k]);
        }
        assert(all_hex(d));
    }
    Some(acc as u32)
}

/// `char::from_u32`: the character with code point `v`, if `v` is a
/// Unicode scalar value.
#[verifier::external_body]
pub(crate) fn char_from_u32(v: u32) -> (r: Option<char>)
    ensures
        r is Some <==> scalar(v),
        r matches Some(c) ==> c == v as char,
{
    char::from_u32(v)
}

/// A roff special character or predefined string, as text.
///
/// Unknown names render as themselves rather than vanishing: a wrong glyph is
/// visible and fixable, a silently dropped one is not.
pub(crate) fn special_exec(name: &Vec<char>) -> (r: Vec<char>)
    ensures
        r@ == special(name@),
{
    match known_special_exec(name) {
        Some(v) => v,
        None => {
            // `\[u00E9]` and friends name a code point directly.
            if name.len() > 0 && name[0] == 'u' {
                proof {
                    assert(name@.subrange(1, name@.len() as int) =~= name@.drop_first());
                }
                match parse_hex_exec(name, 1) {
                    Some(v) => match char_from_u32(v) {
                        Some(c) => {
                            let mut out: Vec<char> = Vec::new();
                            out.push(c);
                            assert(out@ =~= seq![c]);
                            return out;
                        },
                        None => {},
                    },
                    None => {},
                }
            }
            slice_chars(name, 0, name.len())
        },
    }
}

} // verus!

verus! {

/// Every name the glyph table knows is one or two characters long.
proof fn lemma_known_names_short(name: Seq<char>)
    ensures
        known_special(name) is Some ==> name.len() <= 2,
{
    reveal_strlit("bu");
    reveal_strlit("em");
    reveal_strlit("-");
    reveal_strlit("en");
    reveal_strlit("hy");
    reveal_strlit("aq");
    reveal_strlit("Aq");
    reveal_strlit("dq");
    reveal_strlit("\"");
    reveal_strlit("lq");
    reveal_strlit("Lq");
    reveal_strlit("rq");
    reveal_strlit("Rq");
    reveal_strlit("oq");
    reveal_strlit("cq");
    reveal_strlit("ga");
    reveal_strlit("rs");
    reveal_strlit("sl");
    reveal_strlit("ba");
    reveal_strlit("bv");
    reveal_strlit("ti");
    reveal_strlit("ha");
    reveal_strlit("at");
    reveal_strlit("sh");
    reveal_strlit("Do");
    reveal_strlit("pc");
    reveal_strlit("co");
    reveal_strlit("Co");
    reveal_strlit("rg");
    reveal_strlit("Rg");
    reveal_strlit("tm");
    reveal_strlit("Tm");
    reveal_strlit("de");
    reveal_strlit("De");
    reveal_strlit("mu");
    reveal_strlit("di");
    reveal_strlit("+-");
    reveal_strlit("Pm");
    reveal_strlit("<=");
    reveal_strlit(">=");
    reveal_strlit("!=");
    reveal_strlit("==");
    reveal_strlit("~~");
    reveal_strlit("ap");
    reveal_strlit("->");
    reveal_strlit("<-");
    reveal_strlit("ua");
    reveal_strlit("da");
    reveal_strlit("la");
    reveal_strlit("ra");
    reveal_strlit("lB");
    reveal_strlit("rB");
    reveal_strlit("lC");
    reveal_strlit("rC");
    reveal_strlit("or");
    reveal_strlit("es");
    reveal_strlit("if");
    reveal_strlit("*a");
    reveal_strlit("*b");
    reveal_strlit("*p");
    reveal_strlit("*m");
    reveal_strlit("R");
    reveal_strlit("C");
}

proof fn lemma_hex4(a: char, b: char, c: char, d: char)
    requires
        hex_digit(a) is Some,
        hex_digit(b) is Some,
        hex_digit(c) is Some,
        hex_digit(d) is Some,
    ensures
        hex_value(seq![a, b, c, d]) == ((hex_digit(a)->0 * 16 + hex_digit(b)->0) * 16 + hex_digit(c)->0) * 16
            + hex_digit(d)->0,
        all_hex(seq![a, b, c, d]),
{
    assert(seq![a].drop_last() =~= Seq::<char>::empty());
    assert(seq![a, b].drop_last() =~= seq![a]);
    assert(seq![a, b, c].drop_last() =~= seq![a, b]);
    assert(seq![a, b, c, d].drop_last() =~= seq![a, b, c]);
    assert(hex_value(Seq::<char>::empty()) == 0);
    assert(hex_value(seq![a]) == hex_digit(a)->0);
    assert(hex_value(seq![a, b]) == hex_digit(a)->0 * 16 + hex_digit(b)->0);
    assert(hex_value(seq![a, b, c]) == (hex_digit(a)->0 * 16 + hex_digit(b)->0) * 16 + hex_digit(c)->0);
    let w = seq![a, b, c, d];
    assert forall|i: int| 0 <= i < 4 implies #[trigger] hex_digit(w[i]) is Some by {
        if i == 0 {
            assert(w[i] == a);
        } else if i == 1 {
            assert(w[i] == b);
        } else if i == 2 {
            assert(w[i] == c);
        } else {
            assert(w[i] == d);
        }
    }
}

/// A code-point escape names its character: `u` followed by the
/// hexadecimal digits of a Unicode scalar value decodes to the character
/// with that value, whatever the digits.
pub proof fn law_code_point_escapes(d: Seq<char>)
    requires
        d.len() >= 2,
        all_hex(d),
        hex_value(d) <= u32::MAX,
        scalar(hex_value(d) as u32),
    ensures
        special(seq!['u'] + d) == seq![(hex_value(d) as u32) as char],
{
    let name = seq!['u'] + d;
    lemma_known_names_short(name);
    assert(name.drop_first() =~= d);
    assert(hex_digit(d[0]) is Some);
    assert(unsigned_digits(d) == d);
}

/// The glyphs roff names are the Unicode characters of its glyph table:
/// `\(co` is the copyright sign U+00A9, `\(rg` the registered sign
/// U+00AE, `\(tm` the trade mark sign, `\(em` and `\(en` the em and en
/// dashes, `\(bu` the bullet, `\(de` the degree sign, `\(mu` the
/// multiplication sign, and the strings `\*C` and `\*R` the copyright and
/// registered signs; each decodes exactly as its code-point escape does.
pub proof fn law_named_glyphs_are_their_code_points()
    ensures
        special("co"@) == seq!['\u{00A9}'],
        special("co"@) == special(seq!['u', '0', '0', 'A', '9']),
        special("Co"@) == seq!['\u{00A9}'],
        special("Co"@) == special(seq!['u', '0', '0', 'A', '9']),
        special("rg"@) == seq!['\u{00AE}'],
        special("rg"@) == special(seq!['u', '0', '0', 'A', 'E']),
        special("Rg"@) == seq!['\u{00AE}'],
        special("Rg"@) == special(seq!['u', '0', '0', 'A', 'E']),
        special("tm"@) == seq!['\u{2122}'],
        special("tm"@) == special(seq!['u', '2', '1', '2', '2']),
        special("em"@) == seq!['\u{2014}'],
        special("em"@) == special(seq!['u', '2', '0', '1', '4']),
        special("en"@) == seq!['\u{2013}'],
        special("en"@) == special(seq!['u', '2', '0', '1', '3']),
        special("bu"@) == seq!['\u{2022}'],
        special("bu"@) == special(seq!['u', '2', '0', '2', '2']),
        special("de"@) == seq!['\u{00B0}'],
        special("de"@) == special(seq!['u', '0', '0', 'B', '0']),
        special("mu"@) == seq!['\u{00D7}'],
        special("mu"@) == special(seq!['u', '0', '0', 'D', '7']),
        special("C"@) == seq!['\u{00A9}'],
        special("C"@) == special(seq!['u', '0', '0', 'A', '9']),
        special("R"@) == seq!['\u{00AE}'],
        special("R"@) == special(seq!['u', '0', '0', 'A', 'E']),
{
    reveal_strlit("\u{00A9}");
    reveal_strlit("\u{00AE}");
    reveal_strlit("\u{2122}");
    reveal_strlit("\u{2014}");
    reveal_strlit("\u{2013}");
    reveal_strlit("\u{2022}");
    reveal_strlit("\u{00B0}");
    reveal_strlit("\u{00D7}");
    reveal_strlit("bu");
    reveal_strlit("em");
    reveal_strlit("-");
    reveal_strlit("en");
    reveal_strlit("hy");
    reveal_strlit("aq");
    reveal_strlit("Aq");
    reveal_strlit("dq");
    reveal_strlit("\"");
    reveal_strlit("lq");
    reveal_strlit("Lq");
    reveal_strlit("rq");
    reveal_strlit("Rq");
    reveal_strlit("oq");
    reveal_strlit("cq");
    reveal_strlit("ga");
    reveal_strlit("rs");
    reveal_strlit("sl");
    reveal_strlit("ba");
    reveal_strlit("bv");
    reveal_strlit("ti");
    reveal_strlit("ha");
    reveal_strlit("at");
    reveal_strlit("sh");
    reveal_strlit("Do");
    reveal_strlit("pc");
    reveal_strlit("co");
    reveal_strlit("Co");
    reveal_strlit("rg");
    reveal_strlit("Rg");
    reveal_strlit("tm");
    reveal_strlit("Tm");
    reveal_strlit("de");
    reveal_strlit("De");
    reveal_strlit("mu");
    reveal_strlit("di");
    reveal_strlit("+-");
    reveal_strlit("Pm");
    reveal_strlit("<=");
    reveal_strlit(">=");
    reveal_strlit("!=");
    reveal_strlit("==");
    reveal_strlit("~~");
    reveal_strlit("ap");
    reveal_strlit("->");
    reveal_strlit("<-");
    reveal_strlit("ua");
    reveal_strlit("da");
    reveal_strlit("la");
    reveal_strlit("ra");
    reveal_strlit("lB");
    reveal_strlit("rB");
    reveal_strlit("lC");
    reveal_strlit("rC");
    reveal_strlit("or");
    reveal_strlit("es");
    reveal_strlit("if");
    reveal_strlit("*a");
    reveal_strlit("*b");
    reveal_strlit("*p");
    reveal_strlit("*m");
    reveal_strlit("R");
    reveal_strlit("C");
    assert("co"@[0] == 'c' && "co"@[1] == 'o');
    assert("Co"@[0] == 'C' && "Co"@[1] == 'o');
    assert("rg"@[0] == 'r' && "rg"@[1] == 'g');
    assert("Rg"@[0] == 'R' && "Rg"@[1] == 'g');
    assert("tm"@[0] == 't' && "tm"@[1] == 'm');
    assert("em"@[0] == 'e' && "em"@[1] == 'm');
    assert("en"@[0] == 'e' && "en"@[1] == 'n');
    assert("bu"@[0] == 'b' && "bu"@[1] == 'u');
    assert("de"@[0] == 'd' && "de"@[1] == 'e');
    assert("mu"@[0] == 'm' && "mu"@[1] == 'u');
    assert("C"@[0] == 'C');
    assert("R"@[0] == 'R');
    lemma_hex4('0', '0', 'A', '9');
    law_code_point_escapes(seq!['0', '0', 'A', '9']);
    assert(seq!['u'] + seq!['0', '0', 'A', '9'] =~= seq!['u', '0', '0', 'A', '9']);
    lemma_hex4('0', '0', 'A', '9');
    law_code_point_escapes(seq!['0', '0', 'A', '9']);
    assert(seq!['u'] + seq!['0', '0', 'A', '9'] =~= seq!['u', '0', '0', 'A', '9']);
    lemma_hex4('0', '0', 'A', 'E');
    law_code_point_escapes(seq!['0', '0', 'A', 'E']);
    assert(seq!['u'] + seq!['0', '0', 'A', 'E'] =~= seq!['u', '0', '0', 'A', 'E']);
    lemma_hex4('0', '0', 'A', 'E');
    law_code_point_escapes(seq!['0', '0', 'A', 'E']);
    assert(seq!['u'] + seq!['0', '0', 'A', 'E'] =~= seq!['u', '0', '0', 'A', 'E']);
    lemma_hex4('2', '1', '2', '2');
    law_code_point_escapes(seq!['2', '1', '2', '2']);
    assert(seq!['u'] + seq!['2', '1', '2', '2'] =~= seq!['u', '2', '1', '2', '2']);
    lemma_hex4('2', '0', '1', '4');
    law_code_point_escapes(seq!['2', '0', '1', '4']);
    assert(seq!['u'] + seq!['2', '0', '1', '4'] =~= seq!['u', '2', '0', '1', '4']);
    lemma_hex4('2', '0', '1', '3');
    law_code_point_escapes(seq!['2', '0', '1', '3']);
    assert(seq!['u'] + seq!['2', '0', '1', '3'] =~= seq!['u', '2', '0', '1', '3']);
    lemma_hex4('2', '0', '2', '2');
    law_code_point_escapes(seq!['2', '0', '2', '2']);
    assert(seq!['u'] + seq!['2', '0', '2', '2'] =~= seq!['u', '2', '0', '2', '2']);
    lemma_hex4('0', '0', 'B', '0');
    law_code_point_escapes(seq!['0', '0', 'B', '0']);
    assert(seq!['u'] + seq!['0', '0', 'B', '0'] =~= seq!['u', '0', '0', 'B', '0']);
    lemma_hex4('0', '0', 'D', '7');
    law_code_point_escapes(seq!['0', '0', 'D', '7']);
    assert(seq!['u'] + seq!['0', '0', 'D', '7'] =~= seq!['u', '0', '0', 'D', '7']);
    lemma_hex4('0', '0', 'A', '9');
    law_code_point_escapes(seq!['0', '0', 'A', '9']);
    assert(seq!['u'] + seq!['0', '0', 'A', '9'] =~= seq!['u', '0', '0', 'A', '9']);
    lemma_hex4('0', '0', 'A', 'E');
    law_code_point_escapes(seq!['0', '0', 'A', 'E']);
    assert(seq!['u'] + seq!['0', '0', 'A', 'E'] =~= seq!['u', '0', '0', 'A', 'E']);
}

} // verus!
