//! Headings, paragraphs and list-item markers.

use vstd::prelude::*;
use crate::chars::{push_char, push_repeated, repeat};
use crate::config::{Config, ListConfig};
use crate::escape::{normalize_whitespace, normalized};
use crate::inline::{inlines_text, render_inlines, Inline};
use crate::serializer::{quote_prefix, Serializer};

verus! {

/// A heading of level `level` with text `text`: underlined with `=` (level
/// 1) or `-` (level 2) as wide as the text where the settings ask for it,
/// else written after `level` hashes.
pub open spec fn heading_text(cfg: Config, in_block_quote: bool, level: nat, text: Seq<char>) -> Seq<char> {
    let q = quote_prefix(in_block_quote);
    if level == 1 && cfg.heading.setext_h1 {
        q + text + seq!['\n'] + q + repeat('=', text.len()) + seq!['\n']
    } else if level == 2 && cfg.heading.setext_h2 {
        q + text + seq!['\n'] + q + repeat('-', text.len()) + seq!['\n']
    } else {
        q + repeat('#', level) + seq![' '] + text + seq!['\n']
    }
}

/// A paragraph: its normalised text on one line, then a blank line.
pub open spec fn paragraph_text(in_block_quote: bool, text: Seq<char>) -> Seq<char> {
    let q = quote_prefix(in_block_quote);
    q + normalized(text) + seq!['\n'] + q + seq!['\n']
}

/// The decimal digit for `d` (below 10).
pub open spec fn digit_char(d: nat) -> char {
    if d == 0 { '0' }
    else if d == 1 { '1' }
    else if d == 2 { '2' }
    else if d == 3 { '3' }
    else if d == 4 { '4' }
    else if d == 5 { '5' }
    else if d == 6 { '6' }
    else if d == 7 { '7' }
    else if d == 8 { '8' }
    else { '9' }
}

/// The decimal numeral of `n`.
pub open spec fn decimal(n: nat) -> Seq<char>
    decreases n,
{
    if n < 10 {
        seq![digit_char(n)]
    } else {
        decimal(n / 10).push(digit_char(n % 10))
    }
}

fn push_decimal(out: &mut String, n: usize)
    ensures
        final(out)@ == old(out)@ + decimal(n as nat),
    decreases n,
{
    if n >= 10 {
        push_decimal(out, n / 10);
    }
    let d = n % 10;
    let c = if d == 0 { '0' }
        else if d == 1 { '1' }
        else if d == 2 { '2' }
        else if d == 3 { '3' }
        else if d == 4 { '4' }
        else if d == 5 { '5' }
        else if d == 6 { '6' }
        else if d == 7 { '7' }
        else if d == 8 { '8' }
        else { '9' };
    push_char(out, c);
    assert(final(out)@ =~= old(out)@ + decimal(n as nat));
}

/// The marker of an unordered list item: the leading spaces, the marker
/// character, the trailing spaces.
pub open spec fn bullet_text(list: ListConfig) -> Seq<char> {
    repeat(' ', list.leading_spaces as nat) + seq![list.unordered_marker] + repeat(
        ' ',
        list.trailing_spaces as nat,
    )
}

/// The marker of the item numbered `number` of an ordered list at depth
/// `depth`.
pub open spec fn ordinal_text(cfg: Config, number: nat, depth: nat) -> Seq<char> {
    decimal(number).push(
        if depth % 2 == 1 {
            cfg.ordered_list.odd_level_marker
        } else {
            cfg.ordered_list.even_level_marker
        },
    )
}

impl Serializer {
    /// Renders a heading of level `level` (1 to 6).
    pub fn serialize_heading(&mut self, level: usize, content: &Vec<Inline>)
        requires
            1 <= level <= 6,
        ensures
            final(self).output@ == old(self).output@ + heading_text(
                old(self).config,
                old(self).in_block_quote,
                level as nat,
                inlines_text(content@),
            ),
            final(self).config == old(self).config,
            final(self).in_block_quote == old(self).in_block_quote,
    {
        let text = render_inlines(content);
        let width = text.as_str().unicode_len();
        let q = self.in_block_quote;
        let ghost start = self.output@;
        let ghost qp = quote_prefix(q);
        if q {
            push_char(&mut self.output, '>');
            push_char(&mut self.output, ' ');
        }
        let setext_char = if level == 1 && self.config.heading.setext_h1 {
            Some('=')
        } else if level == 2 && self.config.heading.setext_h2 {
            Some('-')
        } else {
            None
        };
        match setext_char {
            Some(c) => {
                self.output.append(text.as_str());
                push_char(&mut self.output, '\n');
                if q {
                    push_char(&mut self.output, '>');
                    push_char(&mut self.output, ' ');
                }
                push_repeated(&mut self.output, c, width);
                push_char(&mut self.output, '\n');
            },
            None => {
                push_repeated(&mut self.output, '#', level);
                push_char(&mut self.output, ' ');
                self.output.append(text.as_str());
                push_char(&mut self.output, '\n');
            },
        }
        assert(self.output@ =~= start + heading_text(self.config, q, level as nat, text@));
    }

    /// Renders a paragraph: its inline content with whitespace normalised,
    /// then a blank separator line.
    pub fn serialize_paragraph(&mut self, content: &Vec<Inline>)
        ensures
            final(self).output@ == old(self).output@ + paragraph_text(
                old(self).in_block_quote,
                inlines_text(content@),
            ),
            final(self).config == old(self).config,
            final(self).in_block_quote == old(self).in_block_quote,
    {
        let text = render_inlines(content);
        let line = normalize_whitespace(text.as_str());
        let q = self.in_block_quote;
        let ghost start = self.output@;
        if q {
            push_char(&mut self.output, '>');
            push_char(&mut self.output, ' ');
        }
        self.output.append(line.as_str());
        push_char(&mut self.output, '\n');
        if q {
            push_char(&mut self.output, '>');
            push_char(&mut self.output, ' ');
        }
        push_char(&mut self.output, '\n');
        assert(self.output@ =~= start + paragraph_text(q, text@));
    }

    /// The marker that opens an unordered list item.
    pub fn bullet_marker(&self) -> (r: String)
        ensures
            r@ == bullet_text(self.config.list),
    {
        let list = self.config.list;
        let mut out = String::new();
        push_repeated(&mut out, ' ', list.leading_spaces);
        push_char(&mut out, list.unordered_marker);
        push_repeated(&mut out, ' ', list.trailing_spaces);
        assert(out@ =~= bullet_text(list));
        out
    }

    /// The marker that opens the item numbered `number` of an ordered list
    /// at nesting depth `depth` (the outermost list has depth 1).
    pub fn ordinal_marker(&self, number: usize, depth: usize) -> (r: String)
        requires
            depth >= 1,
        ensures
            r@ == ordinal_text(self.config, number as nat, depth as nat),
    {
        let mut out = String::new();
        push_decimal(&mut out, number);
        let c = self.config.ordered_list.marker_at_depth(depth);
        push_char(&mut out, c);
        assert(out@ =~= ordinal_text(self.config, number as nat, depth as nat));
        out
    }
}

} // verus!
