//! The Typst writer: [`Topic`] to Typst markup.
//!
//! Every rendering step is stated as a spec function over the writer's state
//! (the text written so far, and whether it ends at the start of a line), and
//! each method is proved to perform exactly that step.

pub mod escape;
mod blocks;
pub(crate) mod html;
pub mod spec;

use vstd::prelude::*;

use crate::ir::inline::condition_text;
use crate::ir::{Align, Block, Example, Inline, LinkDest, Param, Target, Term, Topic};
use crate::text::{
    chars_of, contains_char, has_non_ws_exec, push_chars, push_str, push_string, repeat,
    repeat_exec, slice_chars, string_of, trim_chars, trim_end_chars,
};
use escape::{escape_chars, indent_chars, string_array_chars, string_literal_chars};
use spec::{
    data_block_lines,
    backtick_run, blank_line, blocks_math, code_span, data_block, document, escape_backticks_spec,
    example_items, examples_array_spec, inline_math, inlines_math, is_label_safe, iso_blocks,
    iso_inline, label_char, label_for, lang_text, leading_char_spec, lookup_from, lookup_spec,
    newline, optional_literal, params_array, params_items, prose_entry, raw_literal_spec,
    row_math, sections_array, custom_sections, topic_math, unsafe_boundary_spec, w_inline,
    w_inlines, w_link, w_wrap, Ctx, St, block_math, term_math,
};

verus! {

/// How the template lays out parameter lists: as a table, or as a term list.
#[derive(Debug, Clone, Copy, PartialEq, Eq)]
pub enum ParamsFormat {
    Table,
    Terms,
}

/// Rendering options shared by every topic of a run.
#[derive(Debug)]
pub struct Options {
    /// The template inlined after each topic's data, or [`DEFAULT_TEMPLATE`]
    /// when absent.
    pub template: Option<String>,
    /// Every topic name in the run that addresses exactly one heading, paired
    /// with the label that heading carries; the first pair for a name wins. A
    /// shared name is absent here and resolves, if at all, through the
    /// referring topic's [`Entry::scope`]. A target missing from both degrades
    /// to plain code, since a link to a label the document never defines, or
    /// defines twice, is a Typst compile error rather than just a dead end.
    pub labels: Vec<(String, String)>,
    /// How the template should lay out parameter lists.
    pub params_format: ParamsFormat,
}

impl Default for Options {
    fn default() -> (r: Options)
        ensures
            r.template is None,
            r.labels@.len() == 0,
            r.params_format == ParamsFormat::Table,
    {
        Options { template: None, labels: Vec::new(), params_format: ParamsFormat::Table }
    }
}

/// The rendering half of a generated document, inlined below the data block.
///
/// Inlined rather than imported, because an entry must compile on its own with
/// no file beside it.
pub const DEFAULT_TEMPLATE: &'static str = "// The default template: renders the doc- variables bound above.
#{
  let entry-heading = heading(level: 1, doc-title)
  [#entry-heading]
  if doc-source != none [Source: #doc-source]
  if doc-aliases.len() > 0 [Aliases: #doc-aliases.map(raw).join([, ])]
  if doc-signature != none { doc-signature }
  for section in doc-sections {
    // A custom section carries its own heading, as its author wrote it.
    if section.id != \"custom\" { heading(level: 2, section.title) }
    if section.kind == \"prose\" {
      section.body
    } else if section.kind == \"params\" {
      if doc-params-format == \"terms\" {
        terms(..section.items.map(p => terms.item(
          raw(p.names.join(\", \")),
          [#if p.type != none [#raw(p.type) ] #p.body],
        )))
      } else {
        table(
          columns: 2,
          ..section.items.map(p => (raw(p.names.join(\", \")), p.body)).flatten(),
        )
      }
    } else if section.kind == \"examples\" {
      for example in section.items { example.code }
    }
  }
}
";

impl Options {
    /// The template to inline: the caller's, or the built-in default.
    pub fn template(&self) -> (r: &str)
        ensures
            r@ == template_text(*self),
    {
        match &self.template {
            Some(t) => t.as_str(),
            None => DEFAULT_TEMPLATE,
        }
    }
}

/// The template an [`Options`] selects.
pub open spec fn template_text(options: Options) -> Seq<char> {
    match options.template {
        Some(t) => t@,
        None => DEFAULT_TEMPLATE@,
    }
}

/// What a topic cannot know about itself, because it depends on the other
/// topics in the same run.
#[derive(Debug, Clone, Copy)]
pub struct Entry<'a> {
    /// The label the topic's heading carries. Defaults to the topic's name,
    /// which is the right answer whenever that name is unique in the run.
    pub label: Option<&'a str>,
    /// The file the topic was read from, shown under its signature. Set only
    /// when another topic shares the name.
    pub source: Option<&'a str>,
    /// Labels that only this topic's own scope can resolve, taking precedence
    /// over [`Options::labels`].
    pub scope: Option<&'a Vec<(String, String)>>,
}

impl<'a> Default for Entry<'a> {
    fn default() -> (r: Entry<'a>)
        ensures
            r.label is None,
            r.source is None,
            r.scope is None,
    {
        Entry { label: None, source: None, scope: None }
    }
}

/// The label lookups a writer consults: the entry's scope, then the run's.
pub open spec fn ctx_of(entry: Entry, options: Options) -> Ctx {
    (
        match entry.scope {
            Some(v) => Some(v@),
            None => None,
        },
        options.labels@,
    )
}

/// Render a topic as a standalone Typst document.
///
/// The document is in two halves. The first binds the topic's content to a
/// fixed set of `doc-` variables; the second is the template, which renders
/// them. The MiTeX import is emitted only by documents that contain math.
pub fn topic_to_typst(topic: &Topic, entry: &Entry, options: &Options) -> (r: String)
    ensures
        r@ == document(*topic, *entry, *options),
{
    let writer = Writer::new(entry, options);
    let data = writer.data_block(topic);
    let mut body = data;
    body.push('\n');
    let ghost with_newline = body@;
    assert(with_newline =~= data@ + seq!['\n']);
    push_str(&mut body, options.template());
    if topic_contains_math(topic) {
        let mut out: Vec<char> = chars_of("#import \"@preview/mitex:0.2.7\": mi, mitex\n\n");
        push_chars(&mut out, &body);
        string_of(out.as_slice())
    } else {
        string_of(body.as_slice())
    }
}

pub(crate) struct Writer<'a> {
    pub(crate) out: Vec<char>,
    pub(crate) at_line_start: bool,
    pub(crate) entry: &'a Entry<'a>,
    pub(crate) options: &'a Options,
}

impl<'a> Writer<'a> {
    pub(crate) open spec fn st(&self) -> St {
        (self.out@, self.at_line_start)
    }

    pub(crate) open spec fn ctx(&self) -> Ctx {
        ctx_of(*self.entry, *self.options)
    }

    pub(crate) fn new(entry: &'a Entry<'a>, options: &'a Options) -> (w: Writer<'a>)
        ensures
            w.st() == (Seq::<char>::empty(), true),
            w.entry == entry,
            w.options == options,
    {
        Writer { out: Vec::new(), at_line_start: true, entry, options }
    }

    // -- data -------------------------------------------------------------
    /// Bind everything the template may render to a fixed set of variables,
    /// every one of them emitted for every topic.
    pub(crate) fn data_block(&self, topic: &Topic) -> (r: Vec<char>)
        ensures
            r@ == data_block(*topic, *self.entry, *self.options),
    {
        let name = chars_of(topic.name.as_str());
        let label = match self.entry.label {
            Some(l) => chars_of(l),
            None => chars_of(topic.name.as_str()),
        };
        let label_piece = if is_label_safe_exec(&label) {
            let mut v: Vec<char> = Vec::new();
            v.push('<');
            push_chars(&mut v, &label);
            v.push('>');
            assert(v@ =~= seq!['<'] + label@ + seq!['>']);
            v
        } else {
            chars_of("none")
        };
        let signature_piece = match &topic.signature {
            Some(signature) => {
                let lang = lang_of(&topic.lang);
                let value = chars_of(signature.as_str());
                raw_literal(&lang, &value)
            },
            None => chars_of("none"),
        };
        let mut out: Vec<char> = chars_of("#let doc-name = ");
        push_chars(&mut out, &string_literal_chars(&name));
        push_str(&mut out, "\n#let doc-label = ");
        push_chars(&mut out, &label_piece);
        push_str(&mut out, "\n#let doc-title = [");
        push_chars(&mut out, &self.render_isolated_inline(&topic.title));
        push_str(&mut out, "]\n#let doc-aliases = ");
        push_chars(&mut out, &string_array_chars(&topic.aliases));
        push_str(&mut out, "\n#let doc-source = ");
        push_chars(&mut out, &source_piece(self.entry.source));
        push_str(&mut out, "\n#let doc-signature = ");
        push_chars(&mut out, &signature_piece);
        push_chars(&mut out, &self.data_block_lines(topic));
        out
    }

    /// The data block's lines after the signature.
    fn data_block_lines(&self, topic: &Topic) -> (r: Vec<char>)
        ensures
            r@ == data_block_lines(*topic, *self.options, self.ctx()),
    {
        let format = match self.options.params_format {
            ParamsFormat::Table => chars_of("\"table\""),
            ParamsFormat::Terms => chars_of("\"terms\""),
        };
        let lang = lang_of(&topic.lang);
        let mut out: Vec<char> = chars_of("\n#let doc-params = ");
        push_chars(&mut out, &self.params_array(&topic.params));
        push_str(&mut out, "\n#let doc-raises = ");
        push_chars(&mut out, &self.params_array(&topic.raises));
        push_str(&mut out, "\n#let doc-params-format = ");
        push_chars(&mut out, &format);
        push_str(&mut out, "\n#let doc-examples = ");
        push_chars(&mut out, &examples_array(&lang, &topic.examples));
        push_str(&mut out, "\n#let doc-sections = ");
        push_chars(&mut out, &self.sections_array(topic));
        out.push('\n');
        out
    }

    pub(crate) fn params_array(&self, params: &Vec<Param>) -> (r: Vec<char>)
        ensures
            r@ == params_array(params@, self.ctx()),
    {
        if params.len() == 0 {
            return chars_of("()");
        }
        let mut items: Vec<char> = Vec::new();
        let mut i: usize = 0;
        while i < params.len()
            invariant
                i <= params.len(),
                items@ == params_items(params@, i as nat, self.ctx()),
            decreases params.len() - i,
        {
            let p = &params[i];
            let flag = if p.optional {
                chars_of("true")
            } else {
                chars_of("false")
            };
            let body = self.render_isolated(&p.body);
            push_str(&mut items, "  (names: ");
            push_chars(&mut items, &string_array_chars(&p.names));
            push_str(&mut items, ", type: ");
            push_chars(&mut items, &optional_owned(&p.ty));
            push_str(&mut items, ", default: ");
            push_chars(&mut items, &optional_owned(&p.default));
            push_str(&mut items, ", optional: ");
            push_chars(&mut items, &flag);
            push_str(&mut items, ", body: [");
            push_chars(&mut items, &indent_chars(&body, 4));
            push_str(&mut items, "]),\n");
            i = i + 1;
        }
        let mut out: Vec<char> = chars_of("(\n");
        push_chars(&mut out, &items);
        out.push(')');
        assert(out@ =~= "(\n"@ + items@ + seq![')']);
        out
    }

    /// Every section the topic has, in order, each tagged with what it holds.
    /// Empty sections are absent.
    pub(crate) fn sections_array(&self, topic: &Topic) -> (r: Vec<char>)
        ensures
            r@ == sections_array(*topic, self.ctx()),
    {
        let mut custom: Vec<char> = Vec::new();
        let mut i: usize = 0;
        while i < topic.sections.len()
            invariant
                i <= topic.sections.len(),
                custom@ == custom_sections(topic.sections@, i as nat, self.ctx()),
            decreases topic.sections.len() - i,
        {
            let section = &topic.sections[i];
            let title = self.render_isolated_inline(&section.title);
            let body = self.render_isolated(&section.body);
            push_str(&mut custom, "  (id: \"custom\", title: [");
            push_chars(&mut custom, &title);
            push_str(&mut custom, "], kind: \"prose\", body: [\n== ");
            push_chars(&mut custom, &title);
            push_str(&mut custom, "\n\n");
            push_chars(&mut custom, &body);
            push_str(&mut custom, "\n  ]),\n");
            i = i + 1;
        }
        let arguments = if topic.params.len() > 0 {
            chars_of("  (id: \"arguments\", title: [Arguments], kind: \"params\", items: doc-params),\n")
        } else {
            Vec::new()
        };
        let raises = if topic.raises.len() > 0 {
            chars_of("  (id: \"raises\", title: [Raises], kind: \"params\", items: doc-raises),\n")
        } else {
            Vec::new()
        };
        let examples = if topic.examples.len() > 0 {
            chars_of("  (id: \"examples\", title: [Examples], kind: \"examples\", items: doc-examples),\n")
        } else {
            Vec::new()
        };
        let mut entries = self.prose("description", "Description", &topic.description);
        push_chars(&mut entries, &arguments);
        push_chars(&mut entries, &self.prose("details", "Details", &topic.details));
        push_chars(&mut entries, &self.prose("value", "Value", &topic.value));
        push_chars(&mut entries, &raises);
        push_chars(&mut entries, &custom);
        push_chars(&mut entries, &self.prose("note", "Note", &topic.note));
        push_chars(&mut entries, &examples);
        push_chars(&mut entries, &self.prose("seealso", "See Also", &topic.seealso));
        push_chars(&mut entries, &self.prose("references", "References", &topic.references));
        push_chars(&mut entries, &self.prose("author", "Author", &topic.author));
        if entries.len() == 0 {
            chars_of("()")
        } else {
            let mut out: Vec<char> = chars_of("(\n");
            push_chars(&mut out, &entries);
            out.push(')');
            assert(out@ =~= "(\n"@ + entries@ + seq![')']);
            out
        }
    }

    fn prose(&self, id: &str, title: &str, body: &Vec<Block>) -> (r: Vec<char>)
        ensures
            r@ == prose_entry(id@, title@, body@, self.ctx()),
    {
        if body.len() == 0 {
            return Vec::new();
        }
        let rendered = self.render_isolated(body);
        let mut out: Vec<char> = chars_of("  (id: \"");
        push_str(&mut out, id);
        push_str(&mut out, "\", title: [");
        push_str(&mut out, title);
        push_str(&mut out, "], kind: \"prose\", body: [\n");
        push_chars(&mut out, &rendered);
        push_str(&mut out, "\n  ]),\n");
        out
    }

    // -- layout helpers ---------------------------------------------------
    pub(crate) fn newline(&mut self)
        ensures
            final(self).st() == newline(old(self).st()),
            final(self).entry == old(self).entry,
            final(self).options == old(self).options,
    {
        if !self.at_line_start {
            self.out.push('\n');
            self.at_line_start = true;
        }
    }

    pub(crate) fn ensure_blank_line(&mut self)
        ensures
            final(self).st() == blank_line(old(self).st()),
            final(self).entry == old(self).entry,
            final(self).options == old(self).options,
    {
        self.newline();
        let n = self.out.len();
        let ends = n >= 2 && self.out[n - 2] == '\n' && self.out[n - 1] == '\n';
        assert(ends == crate::text::ends_with(self.out@, seq!['\n', '\n'])) by {
            if n >= 2 {
                assert(ends ==> self.out@.subrange(n - 2, n as int) =~= seq!['\n', '\n']);
            }
        }
        if n > 0 && !ends {
            self.out.push('\n');
        }
    }

    /// Render blocks to a standalone string, isolated from the current
    /// output buffer's line state.
    pub(crate) fn render_isolated(&self, blocks: &Vec<Block>) -> (r: Vec<char>)
        ensures
            r@ == iso_blocks(blocks@, self.ctx()),
        decreases blocks@, 1int, 0int,
    {
        let mut writer = Writer::new(self.entry, self.options);
        writer.write_blocks(blocks);
        trim_chars(&writer.out)
    }

    /// Render inlines to a standalone string. Inline siblings must stay on
    /// one line, so this never inserts block separation.
    pub(crate) fn render_isolated_inline(&self, inlines: &Vec<Inline>) -> (r: Vec<char>)
        ensures
            r@ == iso_inline(inlines@, self.ctx()),
        decreases inlines@, 1int, 0int,
    {
        // Every caller drops the result into a fresh `[..]`, where markup
        // starts anew, exactly as at the start of a line.
        let mut writer = Writer::new(self.entry, self.options);
        writer.write_inlines(inlines);
        trim_chars(&writer.out)
    }

    // -- inlines ----------------------------------------------------------
    pub(crate) fn write_inlines(&mut self, inlines: &Vec<Inline>)
        ensures
            final(self).st() == w_inlines(old(self).st(), inlines@, inlines@.len() as nat, old(self).ctx()),
            final(self).entry == old(self).entry,
            final(self).options == old(self).options,
        decreases inlines@, 0int, inlines@.len() + 1,
    {
        let ghost start = self.st();
        let mut i: usize = 0;
        while i < inlines.len()
            invariant
                i <= inlines.len(),
                self.entry == old(self).entry,
                self.options == old(self).options,
                self.st() == w_inlines(start, inlines@, i as nat, self.ctx()),
            decreases inlines.len() - i,
        {
            // Emphasis markers need a word boundary on both sides, so the
            // character that follows decides how emphasis is written.
            let next = if i + 1 < inlines.len() {
                leading_char(&inlines[i + 1])
            } else {
                None
            };
            self.write_inline(&inlines[i], next);
            i = i + 1;
        }
    }

    fn push_code_span(&mut self, value: &Vec<char>)
        ensures
            final(self).out@ == old(self).out@ + code_span(value@),
            final(self).at_line_start == false,
            final(self).entry == old(self).entry,
            final(self).options == old(self).options,
    {
        let mut ticks = repeat_exec('`', longest_backtick_run(value));
        ticks.push('`');
        push_chars(&mut self.out, &ticks);
        push_chars(&mut self.out, value);
        push_chars(&mut self.out, &ticks);
        self.at_line_start = false;
    }

    pub(crate) fn write_inline(&mut self, inline: &Inline, next: Option<char>)
        ensures
            final(self).st() == w_inline(old(self).st(), *inline, next, old(self).ctx()),
            final(self).entry == old(self).entry,
            final(self).options == old(self).options,
        decreases *inline, 3int, 0int,
    {
        match inline {
            Inline::Text(value) => {
                let v = chars_of(value.as_str());
                let escaped = escape_chars(&v, self.at_line_start);
                push_chars(&mut self.out, &escaped);
                // Whitespace does not end the start-of-line state: Typst reads
                // an indented `-` as a list marker too, and inline text often
                // arrives split across several text runs.
                if has_non_ws_exec(&escaped) || contains_char(&escaped, '\n') {
                    self.at_line_start = escaped.len() > 0 && escaped[escaped.len() - 1] == '\n';
                }
            },
            Inline::Raw(value) => {
                // Already Typst markup, authored as such.
                push_string(&mut self.out, value);
                self.at_line_start = false;
            },
            Inline::Code(value) => {
                let v = chars_of(value.as_str());
                self.push_code_span(&v);
            },
            Inline::Verb(value) => {
                let v = chars_of(value.as_str());
                self.push_code_span(&v);
            },
            Inline::Emph(children) => self.wrap('_', children, next),
            Inline::Strong(children) => self.wrap('*', children, next),
            Inline::Math(latex) => {
                push_str(&mut self.out, "#mi(`");
                let v = chars_of(latex.as_str());
                push_chars(&mut self.out, &escape_backticks(&v));
                push_str(&mut self.out, "`)");
                self.at_line_start = false;
            },
            Inline::LineBreak => {
                push_str(&mut self.out, " \\\n");
                self.at_line_start = true;
            },
            Inline::Sexpr(code) => {
                // Visibly unevaluated: `\Sexpr` needs a live R session.
                let mut v: Vec<char> = Vec::new();
                push_str(&mut v, "\\Sexpr{");
                push_string(&mut v, code);
                push_str(&mut v, "}");
                self.push_code_span(&v);
            },
            Inline::Targeted { target, then, otherwise } => {
                let rendered_then = self.render_isolated_inline(then);
                push_str(&mut self.out, "#context { if ");
                push_str(&mut self.out, target.condition());
                push_str(&mut self.out, " [");
                push_chars(&mut self.out, &rendered_then);
                push_str(&mut self.out, "]");
                if otherwise.len() > 0 {
                    let rendered = self.render_isolated_inline(otherwise);
                    push_str(&mut self.out, " else [");
                    push_chars(&mut self.out, &rendered);
                    push_str(&mut self.out, "]");
                }
                push_str(&mut self.out, " }");
                self.at_line_start = false;
            },
            Inline::Link { dest, children } => self.write_link(dest, children),
        }
    }

    /// Write emphasis or strong content.
    ///
    /// Typst's `*`/`_` markers only delimit at a word boundary, so `_n_th`
    /// never closes its emphasis. Where a boundary is missing, or the content
    /// starts or ends with a space or a slash (`/*` and `*/` are comment
    /// delimiters), the function form carries the same meaning.
    fn wrap(&mut self, marker: char, children: &Vec<Inline>, next: Option<char>)
        ensures
            final(self).st() == w_wrap(old(self).st(), marker, children@, next, old(self).ctx()),
            final(self).entry == old(self).entry,
            final(self).options == old(self).options,
        decreases children@, 2int, 0int,
    {
        let inner = self.render_isolated_inline(children);
        let last = if self.out.len() > 0 {
            Some(self.out[self.out.len() - 1])
        } else {
            None
        };
        let n = inner.len();
        if n == 0 || unsafe_boundary(last) || unsafe_boundary(next) || crate::text::is_whitespace(
            inner[0],
        ) || crate::text::is_whitespace(inner[n - 1]) || inner[0] == '/' || inner[n - 1] == '/' {
            if marker == '*' {
                push_str(&mut self.out, "#strong[");
            } else {
                push_str(&mut self.out, "#emph[");
            }
            push_chars(&mut self.out, &inner);
            self.out.push(']');
            self.at_line_start = false;
            return;
        }
        self.out.push(marker);
        push_chars(&mut self.out, &inner);
        self.out.push(marker);
        self.at_line_start = false;
    }

    fn write_link(&mut self, dest: &LinkDest, children: &Vec<Inline>)
        ensures
            final(self).st() == w_link(old(self).st(), *dest, children@, old(self).ctx()),
            final(self).entry == old(self).entry,
            final(self).options == old(self).options,
        decreases children@, 2int, 0int,
    {
        let (target, fallback) = match dest {
            LinkDest::Url(url) => {
                let u = chars_of(url.as_str());
                (string_literal_chars(&u), u)
            },
            LinkDest::Email(address) => {
                let a = chars_of(address.as_str());
                let mut t: Vec<char> = Vec::new();
                push_str(&mut t, "mailto:");
                push_chars(&mut t, &a);
                (string_literal_chars(&t), a)
            },
            LinkDest::Doi(doi) => {
                let d = chars_of(doi.as_str());
                let mut t: Vec<char> = Vec::new();
                push_str(&mut t, "https://doi.org/");
                push_chars(&mut t, &d);
                let mut f: Vec<char> = Vec::new();
                push_str(&mut f, "doi:");
                push_chars(&mut f, &d);
                (string_literal_chars(&t), f)
            },
            LinkDest::Topic { package, topic } => {
                // Cross-package references have no in-document target, so they
                // render as text rather than a dangling link.
                let name = chars_of(topic.as_str());
                match package {
                    Some(package) => {
                        let mut v: Vec<char> = Vec::new();
                        push_string(&mut v, package);
                        push_str(&mut v, "::");
                        push_chars(&mut v, &name);
                        self.push_code_span(&v);
                    },
                    // The label is looked up rather than assumed to be the
                    // name, since a name two topics share addresses neither.
                    None => match self.label_of(&name) {
                        Some(label) => {
                            push_str(&mut self.out, "#link(label(");
                            push_chars(&mut self.out, &string_literal_chars(&label));
                            push_str(&mut self.out, "))[");
                            self.at_line_start = false;
                            self.push_code_span(&name);
                            self.out.push(']');
                        },
                        None => self.push_code_span(&name),
                    },
                }
                return;
            },
        };
        push_str(&mut self.out, "#link(");
        push_chars(&mut self.out, &target);
        push_str(&mut self.out, ")[");
        self.at_line_start = false;
        if children.len() == 0 {
            self.push_code_span(&fallback);
        } else {
            self.write_inlines(children);
        }
        self.out.push(']');
        self.at_line_start = false;
    }

    /// The label a link to `name` should address, nearest scope first.
    fn label_of(&self, name: &Vec<char>) -> (r: Option<Vec<char>>)
        ensures
            r matches Some(v) ==> label_for(name@, self.ctx()) == Some(v@),
            r is None ==> label_for(name@, self.ctx()) is None,
    {
        let found = match self.entry.scope {
            Some(scope) => lookup(scope, name),
            None => None,
        };
        let found = match found {
            Some(l) => Some(l),
            None => lookup(&self.options.labels, name),
        };
        match found {
            Some(l) => if is_label_safe_exec(&l) {
                Some(l)
            } else {
                None
            },
            None => None,
        }
    }
}

/// The label paired with `name` in `pairs`, by first occurrence.
fn lookup(pairs: &Vec<(String, String)>, name: &Vec<char>) -> (r: Option<Vec<char>>)
    ensures
        r matches Some(v) ==> lookup_spec(pairs@, name@) == Some(v@),
        r is None ==> lookup_spec(pairs@, name@) is None,
{
    let mut i: usize = 0;
    while i < pairs.len()
        invariant
            i <= pairs.len(),
            lookup_spec(pairs@, name@) == lookup_from(pairs@, name@, i as int),
        decreases pairs.len() - i,
    {
        let key = chars_of(pairs[i].0.as_str());
        if crate::text::seq_eq(&key, name) {
            return Some(chars_of(pairs[i].1.as_str()));
        }
        i = i + 1;
    }
    None
}

fn unsafe_boundary(c: Option<char>) -> (r: bool)
    ensures
        r == unsafe_boundary_spec(c),
{
    match c {
        Some(c) => crate::text::is_alphanumeric(c) || c == '/',
        None => false,
    }
}

/// `s` with each backtick escaped, for a raw argument of `#mi`/`#mitex`.
fn escape_backticks(s: &Vec<char>) -> (r: Vec<char>)
    ensures
        r@ == escape_backticks_spec(s@),
{
    let mut out: Vec<char> = Vec::new();
    let mut i: usize = 0;
    while i < s.len()
        invariant
            i <= s.len(),
            out@ == escape_backticks_spec(s@.subrange(0, i as int)),
        decreases s.len() - i,
    {
        assert(s@.subrange(0, i + 1).subrange(0, i as int) =~= s@.subrange(0, i as int));
        if s[i] == '`' {
            out.push('\\');
        }
        out.push(s[i]);
        i = i + 1;
    }
    assert(s@.subrange(0, s.len() as int) =~= s@);
    out
}

/// The language tag of a fence: the topic's language, or nothing.
fn lang_of(lang: &Option<String>) -> (r: Vec<char>)
    ensures
        r@ == lang_text(*lang),
{
    match lang {
        Some(l) => chars_of(l.as_str()),
        None => Vec::new(),
    }
}

/// A Typst string literal, or `none` where there is nothing to say.
/// The file a topic was read from, as inline raw content, or `none`.
fn source_piece(value: Option<&str>) -> (r: Vec<char>)
    ensures
        r@ == match value {
            Some(s) => seq!['['] + code_span(s@) + seq![']'],
            None => "none"@,
        },
{
    proof {
        reveal_strlit("none");
    }
    match value {
        Some(v) => {
            let v = chars_of(v);
            let mut ticks = repeat_exec('`', longest_backtick_run(&v));
            ticks.push('`');
            let mut out: Vec<char> = Vec::new();
            out.push('[');
            push_chars(&mut out, &ticks);
            push_chars(&mut out, &v);
            push_chars(&mut out, &ticks);
            out.push(']');
            assert(ticks@ =~= repeat('`', backtick_run(v@).0 + 1));
            assert(out@ =~= seq!['['] + code_span(v@) + seq![']']);
            out
        },
        None => chars_of("none"),
    }
}

fn optional_owned(value: &Option<String>) -> (r: Vec<char>)
    ensures
        r@ == optional_literal(match value {
            Some(v) => Some(v@),
            None => None,
        }),
{
    match value {
        Some(v) => string_literal_chars(&chars_of(v.as_str())),
        None => chars_of("none"),
    }
}

/// A raw block literal, usable in code position: `` ```lang … ``` ``.
///
/// The fence is longer than any backtick run inside, so code containing
/// backticks cannot close it early.
pub(crate) fn raw_literal(lang: &Vec<char>, value: &Vec<char>) -> (r: Vec<char>)
    ensures
        r@ == raw_literal_spec(lang@, value@),
{
    let run = longest_backtick_run(value);
    let mut ticks = repeat_exec('`', if run > 2 {
        run
    } else {
        2
    });
    ticks.push('`');
    let mut out: Vec<char> = Vec::new();
    push_chars(&mut out, &ticks);
    push_chars(&mut out, lang);
    out.push('\n');
    push_chars(&mut out, &trim_end_chars(value));
    out.push('\n');
    push_chars(&mut out, &ticks);
    out
}

fn examples_array(lang: &Vec<char>, examples: &Vec<Example>) -> (r: Vec<char>)
    ensures
        r@ == examples_array_spec(lang@, examples@),
{
    if examples.len() == 0 {
        return chars_of("()");
    }
    let mut items: Vec<char> = Vec::new();
    let mut i: usize = 0;
    while i < examples.len()
        invariant
            i <= examples.len(),
            items@ == example_items(lang@, examples@, i as nat),
        decreases examples.len() - i,
    {
        // `run` is what `\dontrun{}` meant, kept as data.
        let flag = if examples[i].run {
            chars_of("true")
        } else {
            chars_of("false")
        };
        let code = chars_of(examples[i].code.as_str());
        push_str(&mut items, "  (run: ");
        push_chars(&mut items, &flag);
        push_str(&mut items, ", code: ");
        push_chars(&mut items, &raw_literal(lang, &code));
        push_str(&mut items, "),\n");
        i = i + 1;
    }
    let mut out: Vec<char> = chars_of("(\n");
    push_chars(&mut out, &items);
    out.push(')');
    assert(out@ =~= "(\n"@ + items@ + seq![')']);
    out
}

/// Whether a string is usable as a Typst label without escaping.
pub(crate) fn is_label_safe_exec(value: &Vec<char>) -> (r: bool)
    ensures
        r == is_label_safe(value@),
{
    if value.len() == 0 {
        return false;
    }
    let mut i: usize = 0;
    while i < value.len()
        invariant
            i <= value.len(),
            forall|k: int| 0 <= k < i ==> label_char(#[trigger] value@[k]),
        decreases value.len() - i,
    {
        let c = value[i];
        if !(('a' <= c && c <= 'z') || ('A' <= c && c <= 'Z') || ('0' <= c && c <= '9') || c == '.'
            || c == '-' || c == '_') {
            return false;
        }
        i = i + 1;
    }
    true
}

/// The longest run of consecutive backticks in `value`.
pub(crate) fn longest_backtick_run(value: &Vec<char>) -> (r: usize)
    ensures
        r == backtick_run(value@).0,
        r <= value@.len(),
{
    let mut longest: usize = 0;
    let mut current: usize = 0;
    let mut i: usize = 0;
    while i < value.len()
        invariant
            i <= value.len(),
            (longest as nat, current as nat) == backtick_run(value@.subrange(0, i as int)),
            current <= i,
            longest <= i,
        decreases value.len() - i,
    {
        assert(value@.subrange(0, i + 1).subrange(0, i as int) =~= value@.subrange(0, i as int));
        if value[i] == '`' {
            current = current + 1;
            if current > longest {
                longest = current;
            }
        } else {
            current = 0;
        }
        i = i + 1;
    }
    assert(value@.subrange(0, value.len() as int) =~= value@);
    longest
}

/// The first character an inline will render as, where knowing it matters:
/// emphasis markers need a non-word character on either side.
pub(crate) fn leading_char(inline: &Inline) -> (r: Option<char>)
    ensures
        r == leading_char_spec(*inline),
    decreases *inline,
{
    match inline {
        Inline::Text(value) => {
            let v = chars_of(value.as_str());
            if v.len() > 0 {
                Some(v[0])
            } else {
                None
            }
        },
        Inline::Raw(value) => {
            let v = chars_of(value.as_str());
            if v.len() > 0 {
                Some(v[0])
            } else {
                None
            }
        },
        Inline::Verb(_) | Inline::Code(_) | Inline::Sexpr(_) => Some('`'),
        Inline::Emph(children) | Inline::Strong(children) => {
            if children.len() > 0 {
                leading_char(&children[0])
            } else {
                None
            }
        },
        Inline::Math(_) | Inline::Link { .. } | Inline::Targeted { .. } => Some('#'),
        Inline::LineBreak => Some(' '),
    }
}

/// Whether any of the inlines is, or contains, math.
pub fn inlines_contain_math(inlines: &Vec<Inline>) -> (r: bool)
    ensures
        r == inlines_math(inlines@),
    decreases inlines@,
{
    let mut i: usize = 0;
    while i < inlines.len()
        invariant
            i <= inlines.len(),
            forall|k: int| 0 <= k < i ==> !inline_math(#[trigger] inlines@[k]),
        decreases inlines.len() - i,
    {
        let found = match &inlines[i] {
            Inline::Math(_) => true,
            Inline::Emph(children) | Inline::Strong(children) => inlines_contain_math(children),
            Inline::Link { children, .. } => inlines_contain_math(children),
            Inline::Targeted { then, otherwise, .. } => inlines_contain_math(then)
                || inlines_contain_math(otherwise),
            _ => false,
        };
        if found {
            assert(inline_math(inlines@[i as int]));
            return true;
        }
        i = i + 1;
    }
    false
}

/// Whether any of the blocks is, or contains, math.
pub fn blocks_contain_math(blocks: &Vec<Block>) -> (r: bool)
    ensures
        r == blocks_math(blocks@),
    decreases blocks@,
{
    let mut i: usize = 0;
    while i < blocks.len()
        invariant
            i <= blocks.len(),
            forall|k: int| 0 <= k < i ==> !block_math(#[trigger] blocks@[k]),
        decreases blocks.len() - i,
    {
        let found = match &blocks[i] {
            Block::DisplayMath(_) => true,
            Block::Paragraph(children) => inlines_contain_math(children),
            Block::Heading { content, .. } => inlines_contain_math(content),
            Block::List { items, .. } => items_contain_math(items),
            Block::Terms(terms) => terms_contain_math(terms),
            Block::Table { rows, .. } => rows_contain_math(rows),
            Block::Group(children) => blocks_contain_math(children),
            Block::Targeted { then, otherwise, .. } => blocks_contain_math(then) || blocks_contain_math(
                otherwise,
            ),
            Block::Code { .. } | Block::Html(_) | Block::Raw(_) => false,
        };
        if found {
            assert(block_math(blocks@[i as int]));
            return true;
        }
        i = i + 1;
    }
    false
}

fn items_contain_math(items: &Vec<Vec<Block>>) -> (r: bool)
    ensures
        r == exists|k: int| 0 <= k < items@.len() && blocks_math(#[trigger] items@[k]@),
    decreases items@,
{
    let mut j: usize = 0;
    while j < items.len()
        invariant
            j <= items.len(),
            forall|k: int| 0 <= k < j ==> !blocks_math(#[trigger] items@[k]@),
        decreases items.len() - j,
    {
        if blocks_contain_math(&items[j]) {
            return true;
        }
        j = j + 1;
    }
    false
}

fn terms_contain_math(terms: &Vec<Term>) -> (r: bool)
    ensures
        r == exists|k: int| 0 <= k < terms@.len() && term_math(#[trigger] terms@[k]),
    decreases terms@,
{
    let mut j: usize = 0;
    while j < terms.len()
        invariant
            j <= terms.len(),
            forall|k: int| 0 <= k < j ==> !term_math(#[trigger] terms@[k]),
        decreases terms.len() - j,
    {
        if inlines_contain_math(&terms[j].term) || blocks_contain_math(&terms[j].body) {
            assert(term_math(terms@[j as int]));
            return true;
        }
        j = j + 1;
    }
    false
}

fn row_contains_math(row: &Vec<Vec<Inline>>) -> (r: bool)
    ensures
        r == row_math(row@),
{
    let mut c: usize = 0;
    while c < row.len()
        invariant
            c <= row.len(),
            forall|k: int| 0 <= k < c ==> !inlines_math(#[trigger] row@[k]@),
        decreases row.len() - c,
    {
        if inlines_contain_math(&row[c]) {
            return true;
        }
        c = c + 1;
    }
    false
}

fn rows_contain_math(rows: &Vec<Vec<Vec<Inline>>>) -> (r: bool)
    ensures
        r == exists|k: int| 0 <= k < rows@.len() && row_math(#[trigger] rows@[k]@),
{
    let mut j: usize = 0;
    while j < rows.len()
        invariant
            j <= rows.len(),
            forall|k: int| 0 <= k < j ==> !row_math(#[trigger] rows@[k]@),
        decreases rows.len() - j,
    {
        if row_contains_math(&rows[j]) {
            return true;
        }
        j = j + 1;
    }
    false
}

fn sections_contain_math(sections: &Vec<crate::ir::Section>) -> (r: bool)
    ensures
        r == exists|k: int| 0 <= k < sections@.len() && blocks_math(#[trigger] sections@[k].body@),
{
    let mut i: usize = 0;
    while i < sections.len()
        invariant
            i <= sections.len(),
            forall|k: int| 0 <= k < i ==> !blocks_math(#[trigger] sections@[k].body@),
        decreases sections.len() - i,
    {
        if blocks_contain_math(&sections[i].body) {
            return true;
        }
        i = i + 1;
    }
    false
}

/// Whether any section's title holds math: the title is rendered as the
/// section's heading.
fn section_titles_contain_math(sections: &Vec<crate::ir::Section>) -> (r: bool)
    ensures
        r == exists|k: int| 0 <= k < sections@.len() && inlines_math(#[trigger] sections@[k].title@),
{
    let mut i: usize = 0;
    while i < sections.len()
        invariant
            i <= sections.len(),
            forall|k: int| 0 <= k < i ==> !inlines_math(#[trigger] sections@[k].title@),
        decreases sections.len() - i,
    {
        if inlines_contain_math(&sections[i].title) {
            return true;
        }
        i = i + 1;
    }
    false
}

fn params_contain_math(params: &Vec<Param>) -> (r: bool)
    ensures
        r == exists|k: int| 0 <= k < params@.len() && blocks_math(#[trigger] params@[k].body@),
{
    let mut i: usize = 0;
    while i < params.len()
        invariant
            i <= params.len(),
            forall|k: int| 0 <= k < i ==> !blocks_math(#[trigger] params@[k].body@),
        decreases params.len() - i,
    {
        if blocks_contain_math(&params[i].body) {
            return true;
        }
        i = i + 1;
    }
    false
}

/// Whether anything the topic renders holds math, which is what decides
/// whether a document imports MiTeX.
pub fn topic_contains_math(topic: &Topic) -> (r: bool)
    ensures
        r == topic_math(*topic),
{
    let sections = sections_contain_math(&topic.sections);
    let titles = section_titles_contain_math(&topic.sections);
    blocks_contain_math(&topic.description) || blocks_contain_math(&topic.details)
        || blocks_contain_math(&topic.value) || blocks_contain_math(&topic.seealso)
        || blocks_contain_math(&topic.references) || blocks_contain_math(&topic.note)
        || blocks_contain_math(&topic.author) || params_contain_math(&topic.params)
        || params_contain_math(&topic.raises) || sections || titles || inlines_contain_math(&topic.title)
}

} // verus!
