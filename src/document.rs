//! Whole documents: each block rendered to lines, containers prefixing the
//! lines of their children.

use vstd::prelude::*;
use crate::block::{bullet_text, heading_text, ordinal_text};
use crate::chars::{chars_of, push_char, push_chars, repeat};
use crate::code::{line_views, lines, split_lines, top_level_block};
use crate::config::Config;
use crate::escape::normalized;
use crate::inline::{inlines_text, render_inlines, Inline};
use crate::serializer::{quote_prefix, Serializer};
use crate::table::{cell_views, escape_rows, row_views, table_text, TableAlignment};

verus! {

broadcast use vstd::seq::group_seq_axioms, vstd::std_specs::vec::group_vec_axioms;

/// A block of a document.
#[derive(Debug)]
pub enum Block {
    /// A heading of level 1 to 6.
    Heading { level: usize, content: Vec<Inline> },
    /// A paragraph.
    Paragraph(Vec<Inline>),
    /// A fenced code block with its info string and literal content.
    CodeBlock { info: String, literal: String },
    /// A table: column alignments and rows of cells, header row first.
    Table { alignments: Vec<TableAlignment>, rows: Vec<Vec<Vec<Inline>>> },
    /// A block quote.
    BlockQuote(Vec<Block>),
    /// A list: ordered or not, the number of its first item, whether it is
    /// tight (no blank line between items), and the blocks of each item.
    List { ordered: bool, start: usize, tight: bool, items: Vec<Vec<Block>> },
}

/// The rendered inline content of each cell.
pub open spec fn rendered_rows(rows: Seq<Vec<Vec<Inline>>>) -> Seq<Seq<Seq<char>>> {
    rows.map_values(|r: Vec<Vec<Inline>>| r@.map_values(|c: Vec<Inline>| inlines_text(c@)))
}

/// `ls` with `"> "` before each line.
pub open spec fn quoted(ls: Seq<Seq<char>>) -> Seq<Seq<char>> {
    ls.map_values(|l: Seq<char>| seq!['>', ' '] + l)
}

/// The lines of a list item: the marker before the first line, the
/// indentation before each further line that is not empty.
pub open spec fn item_lines(marker: Seq<char>, indent: Seq<char>, ls: Seq<Seq<char>>) -> Seq<Seq<char>> {
    if ls.len() == 0 {
        seq![marker]
    } else {
        Seq::new(
            ls.len(),
            |i: int|
                if i == 0 {
                    marker + ls[0]
                } else if ls[i].len() == 0 {
                    ls[i]
                } else {
                    indent + ls[i]
                },
        )
    }
}

/// The marker of the `k`-th item (from 0) of a list at depth `depth`.
pub open spec fn item_marker(cfg: Config, ordered: bool, start: nat, k: nat, depth: nat) -> Seq<char> {
    if ordered {
        ordinal_text(cfg, start + k, depth).push(' ')
    } else {
        bullet_text(cfg.list)
    }
}

/// The lines of the blocks `bs`, one blank line between blocks, inside
/// `depth - 1` enclosing lists.
pub open spec fn blocks_lines(cfg: Config, bs: Seq<Block>, depth: nat) -> Seq<Seq<char>>
    decreases bs,
{
    if bs.len() == 0 {
        Seq::empty()
    } else {
        let before = blocks_lines(cfg, bs.drop_last(), depth);
        let own = match bs[bs.len() - 1] {
            Block::Heading { level, content } => lines(
                heading_text(cfg, false, level as nat, inlines_text(content@)),
            ),
            Block::Paragraph(content) => seq![normalized(inlines_text(content@))],
            Block::CodeBlock { info, literal } => lines(
                top_level_block(cfg.code_block, false, info@, literal@),
            ),
            Block::Table { alignments, rows } => lines(
                table_text(false, escape_rows(rendered_rows(rows@)), alignments@),
            ),
            Block::BlockQuote(children) => quoted(blocks_lines(cfg, children@, depth)),
            Block::List { ordered, start, tight, items } => items_lines(
                cfg,
                items@,
                ordered,
                start as nat,
                tight,
                depth,
            ),
        };
        if bs.len() == 1 {
            own
        } else {
            before.push(Seq::empty()) + own
        }
    }
}

/// The lines of the items `items` of a list at depth `depth`.
pub open spec fn items_lines(
    cfg: Config,
    items: Seq<Vec<Block>>,
    ordered: bool,
    start: nat,
    tight: bool,
    depth: nat,
) -> Seq<Seq<char>>
    decreases items,
{
    if items.len() == 0 {
        Seq::empty()
    } else {
        let k = (items.len() - 1) as nat;
        let before = items_lines(cfg, items.drop_last(), ordered, start, tight, depth);
        let own = item_lines(
            item_marker(cfg, ordered, start, k, depth),
            repeat(' ', cfg.list.indent_width as nat),
            blocks_lines(cfg, items[items.len() - 1]@, depth + 1),
        );
        if k == 0 {
            own
        } else if tight {
            before + own
        } else {
            before.push(Seq::empty()) + own
        }
    }
}


/// Whether a block meets what rendering it asks: headings of level 1 to 6,
/// code blocks whose fence length fits in a machine word, table rows no
/// wider than the alignment list, list numbers that fit in a machine word.
pub open spec fn block_ok(b: Block) -> bool
    decreases b,
{
    match b {
        Block::Heading { level, content } => 1 <= level <= 6,
        Block::Paragraph(content) => true,
        Block::CodeBlock { info, literal } => literal@.len() < usize::MAX,
        Block::Table { alignments, rows } => forall|r: int|
            0 <= r < rows@.len() ==> #[trigger] rows@[r]@.len() <= alignments@.len(),
        Block::BlockQuote(children) => forall|i: int|
            0 <= i < children@.len() ==> block_ok(#[trigger] children@[i]),
        Block::List { ordered, start, tight, items } => start + items@.len() <= usize::MAX
            && forall|i: int, j: int|
            0 <= i < items@.len() && 0 <= j < items@[i]@.len() ==> block_ok(#[trigger] items@[i]@[j]),
    }
}

/// Whether every block of `bs` meets what rendering it asks (see
/// `block_ok`), so that the document can be rendered.
pub fn renderable(bs: &Vec<Block>) -> (r: bool)
    ensures
        r == forall|i: int| 0 <= i < bs@.len() ==> block_ok(#[trigger] bs@[i]),
    decreases bs@,
{
    let mut k: usize = 0;
    while k < bs.len()
        invariant
            k <= bs@.len(),
            forall|i: int| 0 <= i < k ==> block_ok(#[trigger] bs@[i]),
        decreases bs.len() - k,
    {
        assert(decreases_to!(bs@ => bs@[k as int]));
        let ok = match &bs[k] {
            Block::Heading { level, content } => 1 <= *level && *level <= 6,
            Block::Paragraph(content) => true,
            Block::CodeBlock { info, literal } => literal.as_str().unicode_len() < usize::MAX,
            Block::Table { alignments, rows } => {
                let mut fits = true;
                let mut r: usize = 0;
                while r < rows.len()
                    invariant
                        r <= rows@.len(),
                        fits == forall|j: int| 0 <= j < r ==> #[trigger] rows@[j]@.len() <= alignments@.len(),
                    decreases rows.len() - r,
                {
                    fits = fits && rows[r].len() <= alignments.len();
                    r += 1;
                }
                fits
            },
            Block::BlockQuote(children) => renderable(children),
            Block::List { ordered, start, tight, items } => {
                if items.len() > usize::MAX - *start {
                    false
                } else {
                    let mut fits = true;
                    let mut i: usize = 0;
                    while i < items.len()
                        invariant
                            i <= items@.len(),
                            decreases_to!(bs@ => items@),
                            fits == forall|a: int, j: int|
                                0 <= a < i && 0 <= j < items@[a]@.len() ==> block_ok(
                                    #[trigger] items@[a]@[j],
                                ),
                        decreases items.len() - i,
                    {
                        assert(decreases_to!(items@ => items@[i as int]@));
                        let item_ok = renderable(&items[i]);
                        fits = fits && item_ok;
                        i += 1;
                    }
                    fits
                }
            },
        };
        if !ok {
            assert(!block_ok(bs@[k as int]));
            return false;
        }
        k += 1;
    }
    true
}

/// The text of the lines `ls`, each after `prefix` and ended by a line feed.
pub open spec fn document_text(prefix: Seq<char>, ls: Seq<Seq<char>>) -> Seq<char>
    decreases ls.len(),
{
    if ls.len() == 0 {
        Seq::empty()
    } else {
        document_text(prefix, ls.drop_last()) + prefix + ls.last() + seq!['\n']
    }
}

/// Appends the lines `src` to `dst`.
fn append_lines(dst: &mut Vec<Vec<char>>, src: Vec<Vec<char>>)
    ensures
        line_views(final(dst)@) == line_views(old(dst)@) + line_views(src@),
{
    let mut src = src;
    let ghost all = src@;
    let mut k: usize = 0;
    let n = src.len();
    let mut rest: Vec<Vec<char>> = Vec::new();
    while k < n
        invariant
            k <= n,
            n == all.len(),
            line_views(dst@) == line_views(old(dst)@) + line_views(all.take(k as int)),
            src@ == all,
        decreases n - k,
    {
        let line = src[k].clone();
        assert(line@ == all[k as int]@);
        let ghost before = dst@;
        dst.push(line);
        assert(line_views(dst@) =~= line_views(before).push(all[k as int]@));
        assert(line_views(all.take(k + 1)) =~= line_views(all.take(k as int)).push(all[k as int]@));
        assert(line_views(dst@) =~= line_views(old(dst)@) + line_views(all.take(k + 1)));
        k += 1;
    }
    assert(all.take(n as int) =~= all);
}

/// The rendered inline content of each cell.
fn render_cells(rows: &Vec<Vec<Vec<Inline>>>) -> (r: Vec<Vec<String>>)
    ensures
        row_views(r@) == rendered_rows(rows@),
        r@.len() == rows@.len(),
        forall|i: int| 0 <= i < r@.len() ==> #[trigger] r@[i]@.len() == rows@[i]@.len(),
{
    let mut out: Vec<Vec<String>> = Vec::new();
    let mut i: usize = 0;
    while i < rows.len()
        invariant
            i <= rows@.len(),
            out@.len() == i,
            forall|r: int| 0 <= r < i ==> #[trigger] cell_views(out@[r]@) == rendered_rows(rows@)[r],
            forall|r: int| 0 <= r < i ==> #[trigger] out@[r]@.len() == rows@[r]@.len(),
        decreases rows.len() - i,
    {
        let row = &rows[i];
        let mut cells: Vec<String> = Vec::new();
        let mut j: usize = 0;
        while j < row.len()
            invariant
                j <= row@.len(),
                cells@.len() == j,
                forall|c: int| 0 <= c < j ==> #[trigger] cells@[c]@ == inlines_text(row@[c]@),
            decreases row.len() - j,
        {
            cells.push(render_inlines(&row[j]));
            j += 1;
        }
        assert(cell_views(cells@) =~= rendered_rows(rows@)[i as int]);
        out.push(cells);
        i += 1;
    }
    assert(row_views(out@) =~= rendered_rows(rows@)) by {
        assert forall|r: int| 0 <= r < out@.len() implies #[trigger] row_views(out@)[r]
            == rendered_rows(rows@)[r] by {
            assert(cell_views(out@[r]@) == rendered_rows(rows@)[r]);
        }
    }
    out
}

/// The lines of an already rendered text.
fn text_lines(s: &String) -> (r: Vec<Vec<char>>)
    ensures
        line_views(r@) == lines(s@),
{
    let c = chars_of(s.as_str());
    split_lines(&c)
}

/// The lines of a list item.
fn make_item_lines(marker: &Vec<char>, indent: &Vec<char>, ls: &Vec<Vec<char>>) -> (r: Vec<Vec<char>>)
    ensures
        line_views(r@) == item_lines(marker@, indent@, line_views(ls@)),
{
    let ghost v = line_views(ls@);
    let mut out: Vec<Vec<char>> = Vec::new();
    if ls.len() == 0 {
        out.push(marker.clone());
        assert(line_views(out@) =~= item_lines(marker@, indent@, v));
        return out;
    }
    let mut k: usize = 0;
    while k < ls.len()
        invariant
            k <= ls@.len(),
            ls@.len() > 0,
            v == line_views(ls@),
            out@.len() == k,
            forall|i: int| 0 <= i < k ==> #[trigger] out@[i]@ == item_lines(marker@, indent@, v)[i],
        decreases ls.len() - k,
    {
        assert(v[k as int] == ls@[k as int]@);
        let mut line: Vec<char> = Vec::new();
        if k == 0 {
            line = marker.clone();
            let mut j: usize = 0;
            let ghost m = line@;
            while j < ls[0].len()
                invariant
                    ls@.len() > 0,
                    j <= ls@[0]@.len(),
                    line@ == m + ls@[0]@.take(j as int),
                decreases ls@[0]@.len() - j,
            {
                line.push(ls[0][j]);
                assert(ls@[0]@.take(j + 1) =~= ls@[0]@.take(j as int).push(ls@[0]@[j as int]));
                j += 1;
            }
            assert(ls@[0]@.take(ls@[0]@.len() as int) =~= ls@[0]@);
        } else if ls[k].len() == 0 {
            line = Vec::new();
            assert(line@ =~= v[k as int]);
        } else {
            line = indent.clone();
            let mut j: usize = 0;
            let ghost m = line@;
            while j < ls[k].len()
                invariant
                    k < ls@.len(),
                    j <= ls@[k as int]@.len(),
                    line@ == m + ls@[k as int]@.take(j as int),
                decreases ls@[k as int]@.len() - j,
            {
                line.push(ls[k][j]);
                assert(ls@[k as int]@.take(j + 1) =~= ls@[k as int]@.take(j as int).push(
                    ls@[k as int]@[j as int],
                ));
                j += 1;
            }
            assert(ls@[k as int]@.take(ls@[k as int]@.len() as int) =~= ls@[k as int]@);
        }
        out.push(line);
        k += 1;
    }
    assert(line_views(out@) =~= item_lines(marker@, indent@, v));
    out
}

/// `n` spaces, as characters.
fn space_chars(n: usize) -> (r: Vec<char>)
    ensures
        r@ == repeat(' ', n as nat),
{
    let mut out: Vec<char> = Vec::new();
    let mut i: usize = 0;
    while i < n
        invariant
            i <= n,
            out@ == repeat(' ', i as nat),
        decreases n - i,
    {
        out.push(' ');
        assert(out@ =~= repeat(' ', (i + 1) as nat));
        i += 1;
    }
    out
}


/// The lines of the blocks `bs` inside `depth - 1` enclosing lists;
/// `odd` tells whether `depth` is odd.
fn render_blocks(cfg: Config, bs: &Vec<Block>, odd: bool, Ghost(depth): Ghost<nat>) -> (r: Vec<Vec<char>>)
    requires
        forall|i: int| 0 <= i < bs@.len() ==> block_ok(#[trigger] bs@[i]),
        odd == (depth % 2 == 1),
    ensures
        line_views(r@) == blocks_lines(cfg, bs@, depth),
    decreases bs@,
{
    let mut out: Vec<Vec<char>> = Vec::new();
    let mut k: usize = 0;
    while k < bs.len()
        invariant
            k <= bs@.len(),
            forall|i: int| 0 <= i < bs@.len() ==> block_ok(#[trigger] bs@[i]),
            odd == (depth % 2 == 1),
            line_views(out@) == blocks_lines(cfg, bs@.take(k as int), depth),
        decreases bs.len() - k,
    {
        let ghost next = bs@.take(k + 1);
        assert(next.drop_last() =~= bs@.take(k as int));
        assert(next[next.len() - 1] == bs@[k as int]);
        assert(decreases_to!(bs@ => bs@[k as int]));
        assert(block_ok(bs@[k as int]));
        let own: Vec<Vec<char>> = match &bs[k] {
            Block::Heading { level, content } => {
                let mut s = Serializer::new(cfg);
                s.serialize_heading(*level, content);
                assert(s.output@ =~= heading_text(cfg, false, *level as nat, inlines_text(content@)));
                text_lines(&s.output)
            },
            Block::Paragraph(content) => {
                let text = render_inlines(content);
                let line = crate::escape::normalize_whitespace(text.as_str());
                let mut v: Vec<Vec<char>> = Vec::new();
                v.push(chars_of(line.as_str()));
                assert(line_views(v@) =~= seq![normalized(inlines_text(content@))]);
                v
            },
            Block::CodeBlock { info, literal } => {
                let mut s = Serializer::new(cfg);
                s.serialize_code_block(info.as_str(), literal.as_str());
                assert(s.output@ =~= top_level_block(cfg.code_block, false, info@, literal@));
                text_lines(&s.output)
            },
            Block::Table { alignments, rows } => {
                let cells = render_cells(rows);
                let mut s = Serializer::new(cfg);
                s.serialize_table(&cells, alignments);
                assert(s.output@ =~= table_text(false, escape_rows(rendered_rows(rows@)), alignments@));
                text_lines(&s.output)
            },
            Block::BlockQuote(children) => {
                let inner = render_blocks(cfg, children, odd, Ghost(depth));
                let mut v: Vec<Vec<char>> = Vec::new();
                let mut j: usize = 0;
                while j < inner.len()
                    invariant
                        j <= inner@.len(),
                        v@.len() == j,
                        forall|i: int| 0 <= i < j ==> #[trigger] v@[i]@ == seq!['>', ' '] + inner@[i]@,
                    decreases inner.len() - j,
                {
                    let mut line: Vec<char> = Vec::new();
                    line.push('>');
                    line.push(' ');
                    let mut c: usize = 0;
                    while c < inner[j].len()
                        invariant
                            j < inner@.len(),
                            c <= inner@[j as int]@.len(),
                            line@ == seq!['>', ' '] + inner@[j as int]@.take(c as int),
                        decreases inner@[j as int]@.len() - c,
                    {
                        line.push(inner[j][c]);
                        assert(inner@[j as int]@.take(c + 1) =~= inner@[j as int]@.take(c as int).push(
                            inner@[j as int]@[c as int],
                        ));
                        c += 1;
                    }
                    assert(inner@[j as int]@.take(inner@[j as int]@.len() as int) =~= inner@[j as int]@);
                    v.push(line);
                    j += 1;
                }
                assert(line_views(v@) =~= quoted(line_views(inner@)));
                v
            },
            Block::List { ordered, start, tight, items } => {
                render_items(cfg, items, *ordered, *start, *tight, odd, Ghost(depth))
            },
        };
        if k > 0 {
            let ghost before = out@;
            out.push(Vec::new());
            assert(line_views(out@) =~= line_views(before).push(Seq::empty()));
        }
        append_lines(&mut out, own);
        k += 1;
    }
    assert(bs@.take(bs@.len() as int) =~= bs@);
    out
}

/// The lines of the items of a list at depth `depth`; `odd` tells whether
/// `depth` is odd.
fn render_items(
    cfg: Config,
    items: &Vec<Vec<Block>>,
    ordered: bool,
    start: usize,
    tight: bool,
    odd: bool,
    Ghost(depth): Ghost<nat>,
) -> (r: Vec<Vec<char>>)
    requires
        start + items@.len() <= usize::MAX,
        forall|i: int, j: int|
            0 <= i < items@.len() && 0 <= j < items@[i]@.len() ==> block_ok(#[trigger] items@[i]@[j]),
        odd == (depth % 2 == 1),
    ensures
        line_views(r@) == items_lines(cfg, items@, ordered, start as nat, tight, depth),
    decreases items@,
{
    let s = Serializer::new(cfg);
    let indent = space_chars(cfg.list.indent_width);
    let mut out: Vec<Vec<char>> = Vec::new();
    let mut k: usize = 0;
    while k < items.len()
        invariant
            k <= items@.len(),
            start + items@.len() <= usize::MAX,
            forall|i: int, j: int|
                0 <= i < items@.len() && 0 <= j < items@[i]@.len() ==> block_ok(#[trigger] items@[i]@[j]),
            odd == (depth % 2 == 1),
            s.config == cfg,
            indent@ == repeat(' ', cfg.list.indent_width as nat),
            line_views(out@) == items_lines(cfg, items@.take(k as int), ordered, start as nat, tight, depth),
        decreases items.len() - k,
    {
        let ghost next = items@.take(k + 1);
        assert(next.drop_last() =~= items@.take(k as int));
        assert(next[next.len() - 1] == items@[k as int]);
        assert(decreases_to!(items@ => items@[k as int]@));
        assert forall|j: int| 0 <= j < items@[k as int]@.len() implies block_ok(#[trigger] items@[k as int]@[j]) by {}
        let inner = render_blocks(cfg, &items[k], !odd, Ghost(depth + 1));
        let marker_text = if ordered {
            let mut m = s.ordinal_marker(start + k, if odd { 1 } else { 2 });
            push_char(&mut m, ' ');
            m
        } else {
            s.bullet_marker()
        };
        assert(marker_text@ == item_marker(cfg, ordered, start as nat, k as nat, depth));
        let marker = chars_of(marker_text.as_str());
        let own = make_item_lines(&marker, &indent, &inner);
        if k > 0 && !tight {
            let ghost before = out@;
            out.push(Vec::new());
            assert(line_views(out@) =~= line_views(before).push(Seq::empty()));
        }
        append_lines(&mut out, own);
        k += 1;
    }
    assert(items@.take(items@.len() as int) =~= items@);
    out
}

impl Serializer {
    /// Renders the blocks of a document, one blank line between blocks;
    /// inside a block quote every line gets its prefix.
    pub fn serialize_document(&mut self, blocks: &Vec<Block>)
        requires
            forall|i: int| 0 <= i < blocks@.len() ==> block_ok(#[trigger] blocks@[i]),
        ensures
            final(self).output@ == old(self).output@ + document_text(
                quote_prefix(old(self).in_block_quote),
                blocks_lines(old(self).config, blocks@, 1),
            ),
            final(self).config == old(self).config,
            final(self).in_block_quote == old(self).in_block_quote,
    {
        let ls = render_blocks(self.config, blocks, true, Ghost(1));
        let ghost v = line_views(ls@);
        let ghost start = self.output@;
        let q = self.in_block_quote;
        let mut k: usize = 0;
        while k < ls.len()
            invariant
                k <= ls@.len(),
                v == line_views(ls@),
                q == self.in_block_quote,
                self.config == old(self).config,
                self.in_block_quote == old(self).in_block_quote,
                self.output@ == start + document_text(quote_prefix(q), v.take(k as int)),
            decreases ls.len() - k,
        {
            let ghost before = self.output@;
            if q {
                push_char(&mut self.output, '>');
                push_char(&mut self.output, ' ');
            }
            push_chars(&mut self.output, &ls[k]);
            push_char(&mut self.output, '\n');
            assert(v.take(k + 1).drop_last() =~= v.take(k as int));
            assert(v[k as int] == ls@[k as int]@);
            assert(self.output@ =~= start + document_text(quote_prefix(q), v.take(k + 1)));
            k += 1;
        }
        assert(v.take(v.len() as int) =~= v);
    }
}

} // verus!
