//! Raw-HTML handling for the Typst writer.
//!
//! Rd's `\out{}` yields a fragment of literal HTML. Typst cannot splice an
//! unparsed HTML string into a document, but it can *build* HTML elements
//! with `html.elem` when compiling for the HTML export target.
//!
//! So a fragment that is one simple element is re-expressed as an `html.elem`
//! call, wrapped in a `target()` check so that compiling the same file to PDF
//! neither fails nor emits markup. Anything more involved (nested tags,
//! multiple siblings, comments) is kept verbatim as raw text rather than
//! dropped, so no content goes missing.

use vstd::prelude::*;

use super::escape::{escape, escape_chars, string_literal, string_literal_chars};
use super::spec::St;
use super::Writer;
use crate::text::{
    chars_of, contains_char, join, push_chars, push_str, skip_ws, slice_chars, string_of, trim,
    trim_chars, trim_end, trim_start, trim_start_chars, trim_end_chars, is_ws,
};

verus! {

/// What `html_escape::decode_html_entities` makes of `s`.
pub uninterp spec fn html_decoded(s: Seq<char>) -> Seq<char>;

/// `html_escape::decode_html_entities`: `s` with its HTML character
/// references resolved. Its source returns the text unchanged when it holds
/// no `&`.
#[verifier::external_body]
fn decode_html_entities(s: &Vec<char>) -> (r: Vec<char>)
    ensures
        r@ == html_decoded(s@),
        !s@.contains('&') ==> r@ == s@,
{
    let text: String = s.iter().collect();
    html_escape::decode_html_entities(&text).chars().collect()
}

/// One HTML element with no nested elements in its body: tag, attributes,
/// and body text.
pub type Element = (Seq<char>, Seq<(Seq<char>, Seq<char>)>, Option<Seq<char>>);

/// The index of the first `c` in `s` at or after `i`, or `s.len()`.
pub open spec fn find_from(s: Seq<char>, c: char, i: int) -> int
    decreases s.len() - i,
{
    if i >= s.len() || s[i] == c {
        if i >= s.len() { s.len() as int } else { i }
    } else {
        find_from(s, c, i + 1)
    }
}

/// The index of the first whitespace character in `s`, or `s.len()`.
pub open spec fn find_ws(s: Seq<char>, i: int) -> int
    decreases s.len() - i,
{
    if i >= s.len() || is_ws(s[i]) {
        if i >= s.len() { s.len() as int } else { i }
    } else {
        find_ws(s, i + 1)
    }
}

pub proof fn lemma_find_from(s: Seq<char>, c: char, i: int)
    requires
        0 <= i <= s.len(),
    ensures
        i <= find_from(s, c, i) <= s.len(),
        forall|k: int| i <= k < find_from(s, c, i) ==> s[k] != c,
        find_from(s, c, i) < s.len() ==> s[find_from(s, c, i)] == c,
    decreases s.len() - i,
{
    if i < s.len() && s[i] != c {
        lemma_find_from(s, c, i + 1);
    }
}

pub proof fn lemma_find_ws(s: Seq<char>, i: int)
    requires
        0 <= i <= s.len(),
    ensures
        i <= find_ws(s, i) <= s.len(),
        forall|k: int| i <= k < find_ws(s, i) ==> !is_ws(s[k]),
        find_ws(s, i) < s.len() ==> is_ws(s[find_ws(s, i)]),
    decreases s.len() - i,
{
    if i < s.len() && !is_ws(s[i]) {
        lemma_find_ws(s, i + 1);
    }
}

pub(crate) fn find_exec(s: &Vec<char>, c: char, i: usize) -> (r: usize)
    requires
        i <= s.len(),
    ensures
        r == find_from(s@, c, i as int),
{
    let mut k = i;
    while k < s.len() && s[k] != c
        invariant
            i <= k <= s.len(),
            find_from(s@, c, i as int) == find_from(s@, c, k as int),
        decreases s.len() - k,
    {
        k = k + 1;
    }
    k
}

pub(crate) fn find_ws_exec(s: &Vec<char>) -> (r: usize)
    ensures
        r == find_ws(s@, 0),
{
    let mut k: usize = 0;
    while k < s.len() && !crate::text::is_whitespace(s[k])
        invariant
            k <= s.len(),
            find_ws(s@, 0) == find_ws(s@, k as int),
        decreases s.len() - k,
    {
        k = k + 1;
    }
    k
}

/// `name="value"` pairs, quoted with `"` or `'`, separated by whitespace.
/// Anything else, unquoted or valueless attributes included, is `None`.
pub open spec fn parse_attributes(rest: Seq<char>) -> Option<Seq<(Seq<char>, Seq<char>)>>
    decreases rest.len(),
{
    if rest.len() == 0 {
        Some(seq![])
    } else {
        let eq = find_from(rest, '=', 0);
        if eq >= rest.len() {
            None
        } else {
            let name = trim(rest.subrange(0, eq));
            let tail = trim_start(rest.subrange(eq + 1, rest.len() as int));
            if name.len() == 0 || find_ws(name, 0) < name.len() || tail.len() == 0 || (tail[0] != '"'
                && tail[0] != '\'') {
                None
            } else {
                let quote = tail[0];
                let close = find_from(tail, quote, 1);
                if close >= tail.len() {
                    None
                } else {
                    let value = html_decoded(tail.subrange(1, close));
                    let next = trim_start(tail.subrange(close + 1, tail.len() as int));
                    if next.len() >= rest.len() {
                        None
                    } else {
                        match parse_attributes(next) {
                            Some(more) => Some(seq![(name, value)] + more),
                            None => None,
                        }
                    }
                }
            }
        }
    }
}

/// Whether every character of `tag` may appear in a tag name.
pub open spec fn all_tag(tag: Seq<char>) -> bool {
    forall|k: int| 0 <= k < tag.len() ==> tag_char(#[trigger] tag[k])
}

pub open spec fn tag_char(c: char) -> bool {
    ('a' <= c <= 'z') || ('A' <= c <= 'Z') || ('0' <= c <= '9') || c == '-'
}

/// `<tag attr="value">text</tag>`, `<tag/>`, or `<tag>`: nothing else.
pub open spec fn simple_element(value: Seq<char>) -> Option<Element> {
    if value.len() == 0 || value[0] != '<' {
        None
    } else {
        let rest = value.subrange(1, value.len() as int);
        let gt = find_from(rest, '>', 0);
        if rest.len() > 0 && (rest[0] == '/' || rest[0] == '!') {
            None
        } else if gt >= rest.len() {
            None
        } else {
            let open = trim(rest.subrange(0, gt));
            let after = rest.subrange(gt + 1, rest.len() as int);
            let self_closing = open.len() > 0 && open[open.len() - 1] == '/';
            let open = if self_closing {
                trim_end(open.subrange(0, open.len() - 1))
            } else {
                open
            };
            let split = find_ws(open, 0);
            let tag = open.subrange(0, split);
            let attribute_text = trim(open.subrange(split, open.len() as int));
            if tag.len() == 0 || !all_tag(tag) {
                None
            } else {
                match parse_attributes(attribute_text) {
                    None => None,
                    Some(attributes) => if self_closing || after.len() == 0 {
                        Some((tag, attributes, None))
                    } else {
                        let closing = seq!['<', '/'] + tag + seq!['>'];
                        if !crate::text::ends_with(after, closing) {
                            None
                        } else {
                            let body = after.subrange(0, after.len() - closing.len());
                            if body.contains('<') || body.contains('>') {
                                None
                            } else {
                                Some((tag, attributes, Some(html_decoded(body))))
                            }
                        }
                    },
                }
            }
        }
    }
}

/// An attribute name as a dictionary key: bare when Typst reads it as an
/// identifier, a string literal otherwise (`aria-label`, `data-x`).
pub open spec fn attribute_key_spec(name: Seq<char>) -> Seq<char> {
    if name.len() > 0 && (forall|k: int|
        0 <= k < name.len() ==> #[trigger] bare_key_char(name[k])) && !('0' <= name[0] <= '9') {
        name
    } else {
        string_literal(name)
    }
}

pub open spec fn bare_key_char(c: char) -> bool {
    ('a' <= c <= 'z') || ('A' <= c <= 'Z') || ('0' <= c <= '9') || c == '_'
}

/// The `html.elem` call for an element, guarded so that the same document
/// still compiles to PDF.
pub open spec fn render_element(element: Element) -> Seq<char> {
    let (tag, attributes, body) = element;
    let attrs = if attributes.len() > 0 {
        ", attrs: ("@ + join(
            attributes.map_values(
                |a: (Seq<char>, Seq<char>)| attribute_key_spec(a.0) + ": "@ + string_literal(a.1),
            ),
            ", "@,
        ) + ")"@
    } else {
        seq![]
    };
    let body_text = match body {
        Some(b) => if b.len() > 0 {
            seq!['['] + escape(b, false) + seq![']']
        } else {
            seq![]
        },
        None => seq![],
    };
    "#context { if target() == \"html\" { "@ + "html.elem("@ + string_literal(tag) + attrs + seq![')']
        + body_text + " } }"@
}

/// Write an `\out{}` fragment: an element as a guarded `html.elem`, text
/// with no markup as escaped prose, anything else verbatim as `#raw`.
pub open spec fn html_fragment(st: St, html: Seq<char>) -> St {
    let value = trim(html);
    if value.len() == 0 {
        st
    } else {
        match simple_element(value) {
            Some(element) => (st.0 + render_element(element), false),
            None => if !value.contains('<') && !value.contains('>') {
                (st.0 + escape(html_decoded(value), false), false)
            } else {
                (st.0 + "#raw("@ + string_literal(value) + seq![')'], false)
            },
        }
    }
}

fn parse_attributes_exec(text: &Vec<char>) -> (r: Option<Vec<(Vec<char>, Vec<char>)>>)
    ensures
        r matches Some(v) ==> parse_attributes(text@) == Some(
            v@.map_values(|a: (Vec<char>, Vec<char>)| (a.0@, a.1@)),
        ),
        r is None ==> parse_attributes(text@) is None,
    decreases text@.len(),
{
    if text.len() == 0 {
        let v: Vec<(Vec<char>, Vec<char>)> = Vec::new();
        assert(v@.map_values(|a: (Vec<char>, Vec<char>)| (a.0@, a.1@)) =~= seq![]);
        return Some(v);
    }
    let eq = find_exec(text, '=', 0);
    proof {
        lemma_find_from(text@, '=', 0);
    }
    if eq >= text.len() {
        return None;
    }
    let name = trim_chars(&slice_chars(text, 0, eq));
    let tail = trim_start_chars(&slice_chars(text, eq + 1, text.len()));
    if name.len() == 0 || find_ws_exec(&name) < name.len() || tail.len() == 0 || (tail[0] != '"'
        && tail[0] != '\'') {
        return None;
    }
    let quote = tail[0];
    let close = find_exec(&tail, quote, 1);
    proof {
        lemma_find_from(tail@, quote, 1);
    }
    if close >= tail.len() {
        return None;
    }
    let value = decode_html_entities(&slice_chars(&tail, 1, close));
    let next = trim_start_chars(&slice_chars(&tail, close + 1, tail.len()));
    if next.len() >= text.len() {
        return None;
    }
    match parse_attributes_exec(&next) {
        Some(more) => {
            let mut v: Vec<(Vec<char>, Vec<char>)> = Vec::new();
            let ghost first = (name@, value@);
            v.push((name, value));
            let mut more = more;
            let ghost more_view = more@;
            v.append(&mut more);
            assert(v@.map_values(|a: (Vec<char>, Vec<char>)| (a.0@, a.1@)) =~= seq![first]
                + more_view.map_values(|a: (Vec<char>, Vec<char>)| (a.0@, a.1@)));
            Some(v)
        },
        None => None,
    }
}

/// The exec form of an element: tag, attributes, body.
type ElementExec = (Vec<char>, Vec<(Vec<char>, Vec<char>)>, Option<Vec<char>>);

spec fn element_view(e: ElementExec) -> Element {
    (
        e.0@,
        e.1@.map_values(|a: (Vec<char>, Vec<char>)| (a.0@, a.1@)),
        match e.2 {
            Some(b) => Some(b@),
            None => None,
        },
    )
}

/// Parse `<tag attr="value">text</tag>`, `<tag/>`, or `<tag>`.
///
/// Deliberately narrow: it recognizes exactly the shapes that appear in
/// practice in `\out{}` and gives up on anything else rather than
/// half-parsing HTML.
fn parse_simple_element(value: &Vec<char>) -> (r: Option<ElementExec>)
    ensures
        r matches Some(e) ==> simple_element(value@) == Some(element_view(e)),
        r is None ==> simple_element(value@) is None,
{
    if value.len() == 0 || value[0] != '<' {
        return None;
    }
    let rest = slice_chars(value, 1, value.len());
    let gt = find_exec(&rest, '>', 0);
    proof {
        lemma_find_from(rest@, '>', 0);
    }
    if rest.len() > 0 && (rest[0] == '/' || rest[0] == '!') {
        return None;
    }
    if gt >= rest.len() {
        return None;
    }
    let open = trim_chars(&slice_chars(&rest, 0, gt));
    let after = slice_chars(&rest, gt + 1, rest.len());
    let self_closing = open.len() > 0 && open[open.len() - 1] == '/';
    let open = if self_closing {
        trim_end_chars(&slice_chars(&open, 0, open.len() - 1))
    } else {
        open
    };
    let split = find_ws_exec(&open);
    proof {
        lemma_find_ws(open@, 0);
    }
    let tag = slice_chars(&open, 0, split);
    let attribute_text = trim_chars(&slice_chars(&open, split, open.len()));
    let ghost rest_v = value@.subrange(1, value@.len() as int);
    assert(rest@ == rest_v);
    let ghost open_v = trim(rest_v.subrange(0, find_from(rest_v, '>', 0)));
    let ghost sc = open_v.len() > 0 && open_v[open_v.len() - 1] == '/';
    assert(self_closing == sc);
    let ghost open2 = if sc {
        trim_end(open_v.subrange(0, open_v.len() - 1))
    } else {
        open_v
    };
    assert(open@ == open2);
    assert(tag@ == open2.subrange(0, find_ws(open2, 0)));
    if tag.len() == 0 {
        return None;
    }
    if !all_tag_chars(&tag) {
        return None;
    }
    let attributes = match parse_attributes_exec(&attribute_text) {
        Some(a) => a,
        None => return None,
    };
    if self_closing || after.len() == 0 {
        return Some((tag, attributes, None));
    }
    // A body containing further markup is out of scope.
    let mut closing: Vec<char> = Vec::new();
    closing.push('<');
    closing.push('/');
    push_chars(&mut closing, &tag);
    closing.push('>');
    assert(closing@ =~= seq!['<', '/'] + tag@ + seq!['>']);
    assert(after@ == rest_v.subrange(find_from(rest_v, '>', 0) + 1, rest_v.len() as int));
    if closing.len() > after.len() {
        return None;
    }
    let tail = slice_chars(&after, after.len() - closing.len(), after.len());
    if !crate::text::seq_eq(&tail, &closing) {
        return None;
    }
    let body = slice_chars(&after, 0, after.len() - closing.len());
    if contains_char(&body, '<') || contains_char(&body, '>') {
        return None;
    }
    let decoded = decode_html_entities(&body);
    Some((tag, attributes, Some(decoded)))
}

fn all_tag_chars(tag: &Vec<char>) -> (r: bool)
    ensures
        r == all_tag(tag@),
{
    let mut i: usize = 0;
    while i < tag.len()
        invariant
            i <= tag.len(),
            forall|k: int| 0 <= k < i ==> tag_char(#[trigger] tag@[k]),
        decreases tag.len() - i,
    {
        let c = tag[i];
        if !(('a' <= c && c <= 'z') || ('A' <= c && c <= 'Z') || ('0' <= c && c <= '9') || c == '-') {
            assert(!tag_char(tag@[i as int]));
            return false;
        }
        i = i + 1;
    }
    true
}

/// Quote an attribute name that is not a bare Typst identifier.
fn attribute_key(name: &Vec<char>) -> (r: Vec<char>)
    ensures
        r@ == attribute_key_spec(name@),
{
    let mut bare = name.len() > 0 && !('0' <= name[0] && name[0] <= '9');
    let mut i: usize = 0;
    while i < name.len()
        invariant
            i <= name.len(),
            bare ==> forall|k: int| 0 <= k < i ==> bare_key_char(#[trigger] name@[k]),
            bare ==> name@.len() > 0 && !('0' <= name@[0] <= '9'),
            !bare ==> !(name@.len() > 0 && (forall|k: int|
                0 <= k < name@.len() ==> #[trigger] bare_key_char(name@[k])) && !('0' <= name@[0]
                <= '9')),
        decreases name.len() - i,
    {
        let c = name[i];
        if !(('a' <= c && c <= 'z') || ('A' <= c && c <= 'Z') || ('0' <= c && c <= '9') || c == '_') {
            assert(!bare_key_char(name@[i as int]));
            bare = false;
        }
        i = i + 1;
    }
    if bare {
        slice_chars(name, 0, name.len())
    } else {
        string_literal_chars(name)
    }
}

/// Emit `html.elem`, guarded so the same document still compiles to PDF.
fn render_html_elem(element: &ElementExec) -> (r: Vec<char>)
    ensures
        r@ == render_element(element_view(*element)),
{
    let (tag, attributes, body) = element;
    let mut out: Vec<char> = Vec::new();
    push_str(&mut out, "#context { if target() == \"html\" { ");
    push_str(&mut out, "html.elem(");
    push_chars(&mut out, &string_literal_chars(tag));
    let ghost av = attributes@.map_values(|a: (Vec<char>, Vec<char>)| (a.0@, a.1@));
    if attributes.len() > 0 {
        let mut parts: Vec<Vec<char>> = Vec::new();
        let mut i: usize = 0;
        while i < attributes.len()
            invariant
                i <= attributes.len(),
                av == attributes@.map_values(|a: (Vec<char>, Vec<char>)| (a.0@, a.1@)),
                parts@.len() == i,
                forall|k: int| 0 <= k < i ==> #[trigger] parts@[k]@ == attribute_key_spec(av[k].0) + ": "@
                    + string_literal(av[k].1),
            decreases attributes.len() - i,
        {
            let mut part = attribute_key(&attributes[i].0);
            push_str(&mut part, ": ");
            push_chars(&mut part, &string_literal_chars(&attributes[i].1));
            parts.push(part);
            i = i + 1;
        }
        assert(parts@.map_values(|p: Vec<char>| p@) =~= av.map_values(
            |a: (Seq<char>, Seq<char>)| attribute_key_spec(a.0) + ": "@ + string_literal(a.1),
        ));
        push_str(&mut out, ", attrs: (");
        push_chars(&mut out, &crate::text::join_exec(&parts, ", "));
        push_str(&mut out, ")");
    }
    out.push(')');
    match body {
        Some(b) => if b.len() > 0 {
            out.push('[');
            push_chars(&mut out, &escape_chars(b, false));
            out.push(']');
        },
        None => {},
    }
    push_str(&mut out, " } }");
    out
}

impl Writer<'_> {
    pub(crate) fn write_html_fragment(&mut self, html: &String)
        ensures
            final(self).st() == html_fragment(old(self).st(), html@),
            final(self).entry == old(self).entry,
            final(self).options == old(self).options,
    {
        let value = trim_chars(&chars_of(html.as_str()));
        if value.len() == 0 {
            return;
        }
        match parse_simple_element(&value) {
            Some(element) => {
                push_chars(&mut self.out, &render_html_elem(&element));
            },
            None => {
                if !contains_char(&value, '<') && !contains_char(&value, '>') {
                    let decoded = decode_html_entities(&value);
                    push_chars(&mut self.out, &escape_chars(&decoded, false));
                } else {
                    push_str(&mut self.out, "#raw(");
                    push_chars(&mut self.out, &string_literal_chars(&value));
                    self.out.push(')');
                }
            },
        }
        self.at_line_start = false;
    }
}

} // verus!
