//! The block half of the writer.

use vstd::prelude::*;

use super::escape::indent_chars;
use super::spec::{
    align_name, blank_line, iso_blocks, decimal, iso_inline, list_items, max_row_len, row_cells, table_rows,
    term_items, w_block, w_blocks, w_code_block, w_heading, w_table,
};
use super::{lang_of, longest_backtick_run, Writer};
use crate::ir::inline::condition_text;
use crate::ir::{Align, Block, Inline, Target, Term};
use super::escape::indent;
use crate::text::{join, repeat};
use crate::text::{chars_of, push_chars, push_str, push_string, repeat_exec, trim_end_chars};

verus! {

broadcast use vstd::std_specs::vec::axiom_vec_decreases_to_view;

/// The decimal digits of `n`.
pub(crate) fn decimal_exec(n: usize) -> (r: Vec<char>)
    ensures
        r@ == decimal(n as nat),
    decreases n,
{
    let d = n % 10;
    let c = if d == 0 {
        '0'
    } else if d == 1 {
        '1'
    } else if d == 2 {
        '2'
    } else if d == 3 {
        '3'
    } else if d == 4 {
        '4'
    } else if d == 5 {
        '5'
    } else if d == 6 {
        '6'
    } else if d == 7 {
        '7'
    } else if d == 8 {
        '8'
    } else {
        '9'
    };
    if n < 10 {
        let mut v: Vec<char> = Vec::new();
        v.push(c);
        v
    } else {
        let mut v = decimal_exec(n / 10);
        v.push(c);
        v
    }
}

impl<'a> Writer<'a> {
    pub(crate) fn write_blocks(&mut self, blocks: &Vec<Block>)
        ensures
            final(self).st() == w_blocks(old(self).st(), blocks@, blocks@.len() as nat, old(self).ctx()),
            final(self).entry == old(self).entry,
            final(self).options == old(self).options,
        decreases blocks@, 0int, blocks@.len() + 1,
    {
        let ghost start = self.st();
        let mut i: usize = 0;
        while i < blocks.len()
            invariant
                i <= blocks.len(),
                self.entry == old(self).entry,
                self.options == old(self).options,
                self.st() == w_blocks(start, blocks@, i as nat, self.ctx()),
            decreases blocks.len() - i,
        {
            self.write_block(&blocks[i]);
            i = i + 1;
        }
    }

    /// A heading inside a section's prose. Manual sections themselves are
    /// headings the template makes, not markup this writer emits.
    fn write_heading(&mut self, level: u8, content: &Vec<Inline>)
        ensures
            final(self).st() == w_heading(old(self).st(), level as nat, content@, old(self).ctx()),
            final(self).entry == old(self).entry,
            final(self).options == old(self).options,
    {
        if content.len() == 0 {
            return;
        }
        self.ensure_blank_line();
        let ghost s = self.st();
        let marks = if level >= 1 {
            level
        } else {
            1
        };
        let m = repeat_exec('=', marks as usize);
        push_chars(&mut self.out, &m);
        self.out.push(' ');
        self.at_line_start = false;
        assert(self.out@ =~= s.0 + m@ + seq![' ']);
        self.write_inlines(content);
        self.newline();
        self.ensure_blank_line();
    }

    pub(crate) fn write_block(&mut self, block: &Block)
        ensures
            final(self).st() == w_block(old(self).st(), *block, old(self).ctx()),
            final(self).entry == old(self).entry,
            final(self).options == old(self).options,
        decreases *block, 3int, 0int,
    {
        let ghost st0 = self.st();
        let ghost ctx = self.ctx();
        match block {
            Block::Paragraph(children) => {
                self.ensure_blank_line();
                self.write_inlines(children);
                self.newline();
                assert(self.st() == w_block(st0, *block, ctx));
            },
            Block::Heading { level, content } => {
                let level = if *level < 255 {
                    *level + 1
                } else {
                    255
                };
                self.write_heading(level, content);
                assert(self.st() == w_block(st0, *block, ctx));
            },
            Block::Code { lang, value } => {
                let l = lang_of(lang);
                let v = chars_of(value.as_str());
                self.write_code_block(&l, &v);
                assert(self.st() == w_block(st0, *block, ctx));
            },
            Block::List { ordered, items } => self.write_list(*ordered, items),
            Block::Terms(terms) => self.write_terms(terms),
            Block::Table { align, rows } => self.write_table(align, rows),
            Block::DisplayMath(latex) => {
                self.ensure_blank_line();
                let ghost s = self.st();
                push_str(&mut self.out, "#mitex(`");
                let v = chars_of(latex.as_str());
                let e = super::escape_backticks(&v);
                push_chars(&mut self.out, &e);
                push_str(&mut self.out, "`)\n");
                self.at_line_start = true;
                assert(self.out@ =~= s.0 + "#mitex(`"@ + e@ + "`)\n"@);
                assert(self.st() == w_block(st0, *block, ctx));
            },
            Block::Group(children) => self.write_blocks(children),
            Block::Targeted { target, then, otherwise } => {
                // Both branches survive into the document: one Typst source
                // compiles to both PDF and HTML, so the choice belongs to
                // `target()` at compile time.
                if then.len() == 0 && otherwise.len() == 0 {
                    return;
                }
                self.ensure_blank_line();
                let ghost s = self.st();
                let rendered_then = indent_chars(&self.render_isolated(then), 2);
                push_str(&mut self.out, "#context {\n  if ");
                push_str(&mut self.out, target.condition());
                push_str(&mut self.out, " [");
                push_chars(&mut self.out, &rendered_then);
                push_str(&mut self.out, "]");
                if otherwise.len() > 0 {
                    let rendered = indent_chars(&self.render_isolated(otherwise), 2);
                    push_str(&mut self.out, " else [");
                    push_chars(&mut self.out, &rendered);
                    push_str(&mut self.out, "]");
                }
                push_str(&mut self.out, "\n}\n");
                self.at_line_start = true;
                assert(self.out@ =~= s.0 + "#context {\n  if "@ + condition_text(*target) + " ["@
                    + rendered_then@ + "]"@ + (if otherwise@.len() > 0 {
                    " else ["@ + indent(iso_blocks(otherwise@, ctx), repeat(' ', 2)) + "]"@
                } else {
                    seq![]
                }) + "\n}\n"@);
                self.ensure_blank_line();
                assert(self.st() == w_block(st0, *block, ctx));
            },
            Block::Html(html) => {
                self.ensure_blank_line();
                self.write_html_fragment(html);
                self.newline();
                self.ensure_blank_line();
                assert(self.st() == w_block(st0, *block, ctx));
            },
            Block::Raw(value) => {
                self.ensure_blank_line();
                push_string(&mut self.out, value);
                let v = chars_of(value.as_str());
                self.at_line_start = v.len() > 0 && v[v.len() - 1] == '\n';
                self.newline();
                assert(self.st() == w_block(st0, *block, ctx));
            },
        }
    }

    /// A plain raw block, never an executable one.
    fn write_code_block(&mut self, lang: &Vec<char>, value: &Vec<char>)
        ensures
            final(self).st() == w_code_block(old(self).st(), lang@, value@),
            final(self).entry == old(self).entry,
            final(self).options == old(self).options,
    {
        self.ensure_blank_line();
        let run = longest_backtick_run(value);
        let mut ticks = repeat_exec('`', if run > 2 {
            run
        } else {
            2
        });
        ticks.push('`');
        push_chars(&mut self.out, &ticks);
        push_chars(&mut self.out, lang);
        self.out.push('\n');
        push_chars(&mut self.out, &trim_end_chars(value));
        self.out.push('\n');
        push_chars(&mut self.out, &ticks);
        self.newline();
        self.at_line_start = true;
        self.ensure_blank_line();
    }

    fn write_list(&mut self, ordered: bool, items: &Vec<Vec<Block>>)
        ensures
            final(self).st() == w_block(
                old(self).st(),
                Block::List { ordered, items: *items },
                old(self).ctx(),
            ),
            final(self).entry == old(self).entry,
            final(self).options == old(self).options,
        decreases items@, 2int, 0int,
    {
        self.ensure_blank_line();
        let ghost start = self.out@;
        let marker = if ordered {
            '+'
        } else {
            '-'
        };
        let mut i: usize = 0;
        while i < items.len()
            invariant
                i <= items.len(),
                self.entry == old(self).entry,
                self.options == old(self).options,
                self.out@ == start + list_items(marker, items@, i as nat, self.ctx()),
                i > 0 ==> self.at_line_start,
                i == 0 ==> self.st() == blank_line(old(self).st()),
            decreases items.len() - i,
        {
            let body = self.render_isolated(&items[i]);
            self.out.push(marker);
            self.out.push(' ');
            push_chars(&mut self.out, &indent_chars(&body, 2));
            self.out.push('\n');
            self.at_line_start = true;
            i = i + 1;
        }
        self.ensure_blank_line();
    }

    fn write_terms(&mut self, terms: &Vec<Term>)
        ensures
            final(self).st() == w_block(old(self).st(), Block::Terms(*terms), old(self).ctx()),
            final(self).entry == old(self).entry,
            final(self).options == old(self).options,
        decreases terms@, 2int, 0int,
    {
        self.ensure_blank_line();
        push_str(&mut self.out, "#terms(\n");
        let ghost start = self.out@;
        let mut i: usize = 0;
        while i < terms.len()
            invariant
                i <= terms.len(),
                self.entry == old(self).entry,
                self.options == old(self).options,
                self.out@ == start + term_items(terms@, i as nat, self.ctx()),
            decreases terms.len() - i,
        {
            let head = self.render_isolated_inline(&terms[i].term);
            let body = self.render_isolated(&terms[i].body);
            push_str(&mut self.out, "  terms.item([");
            push_chars(&mut self.out, &head);
            push_str(&mut self.out, "], [");
            push_chars(&mut self.out, &indent_chars(&body, 2));
            push_str(&mut self.out, "]),\n");
            i = i + 1;
        }
        push_str(&mut self.out, ")\n");
        self.at_line_start = true;
        self.ensure_blank_line();
    }

    fn write_table(&mut self, align: &Vec<Align>, rows: &Vec<Vec<Vec<Inline>>>)
        ensures
            final(self).st() == w_table(old(self).st(), align@, rows@, old(self).ctx()),
            final(self).entry == old(self).entry,
            final(self).options == old(self).options,
    {
        self.ensure_blank_line();
        let ghost s = self.st();
        let ghost ctx = self.ctx();
        let mut widest: usize = 0;
        let mut r: usize = 0;
        while r < rows.len()
            invariant
                r <= rows.len(),
                widest == max_row_len(rows@, r as nat),
            decreases rows.len() - r,
        {
            if rows[r].len() > widest {
                widest = rows[r].len();
            }
            r = r + 1;
        }
        let columns = if align.len() > widest {
            align.len()
        } else {
            widest
        };
        push_str(&mut self.out, "#table(\n  columns: ");
        let digits = decimal_exec(columns);
        push_chars(&mut self.out, &digits);
        push_str(&mut self.out, ",\n");
        let ghost head = self.out@;
        if align.len() > 0 {
            let mut names: Vec<Vec<char>> = Vec::new();
            let mut i: usize = 0;
            while i < align.len()
                invariant
                    i <= align.len(),
                    names@.len() == i,
                    forall|k: int| 0 <= k < i ==> #[trigger] names@[k]@ == align_name(align@[k]),
                decreases align.len() - i,
            {
                match align[i] {
                    Align::Left => names.push(chars_of("left")),
                    Align::Center => names.push(chars_of("center")),
                    Align::Right => names.push(chars_of("right")),
                }
                i = i + 1;
            }
            assert(names@.map_values(|p: Vec<char>| p@) =~= align@.map_values(|a: Align| align_name(a)));
            push_str(&mut self.out, "  align: (");
            push_chars(&mut self.out, &crate::text::join_exec(&names, ", "));
            push_str(&mut self.out, ",),\n");
        }
        let ghost before = self.out@;
        assert(before =~= head + if align@.len() > 0 {
            "  align: ("@ + join(align@.map_values(|a: Align| align_name(a)), ", "@) + ",),\n"@
        } else {
            seq![]
        });
        let mut j: usize = 0;
        while j < rows.len()
            invariant
                j <= rows.len(),
                self.entry == old(self).entry,
                self.options == old(self).options,
                self.out@ == before + table_rows(rows@, j as nat, self.ctx()),
            decreases rows.len() - j,
        {
            let row = &rows[j];
            let mut cells: Vec<Vec<char>> = Vec::new();
            let mut c: usize = 0;
            while c < row.len()
                invariant
                    c <= row.len(),
                    cells@.len() == c,
                    forall|k: int| 0 <= k < c ==> #[trigger] cells@[k]@ == seq!['['] + iso_inline(
                        row@[k]@,
                        self.ctx(),
                    ) + seq![']'],
                decreases row.len() - c,
            {
                let mut cell: Vec<char> = Vec::new();
                cell.push('[');
                push_chars(&mut cell, &self.render_isolated_inline(&row[c]));
                cell.push(']');
                cells.push(cell);
                c = c + 1;
            }
            assert(cells@.map_values(|p: Vec<char>| p@) =~= row_cells(row@, self.ctx()));
            push_str(&mut self.out, "  ");
            push_chars(&mut self.out, &crate::text::join_exec(&cells, ", "));
            push_str(&mut self.out, ",\n");
            j = j + 1;
        }
        push_str(&mut self.out, ")\n");
        self.at_line_start = true;
        assert(self.out@ =~= s.0 + "#table(\n  columns: "@ + decimal(columns as nat) + ",\n"@ + (if align@.len() > 0 {
            "  align: ("@ + join(align@.map_values(|a: Align| align_name(a)), ", "@) + ",),\n"@
        } else {
            seq![]
        }) + table_rows(rows@, rows@.len(), ctx) + ")\n"@);
        self.ensure_blank_line();
    }
}

} // verus!
