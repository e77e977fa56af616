//! Inline content: text, code spans, emphasis and links, rendered back to
//! Markdown.

use vstd::prelude::*;
use crate::chars::push_char;
use crate::escape::{code_span, escape_text, escaped, format_code_span};

verus! {

broadcast use vstd::seq::group_seq_axioms, vstd::std_specs::vec::group_vec_axioms;

/// An inline node of a document.
#[derive(Debug)]
pub enum Inline {
    /// Literal text.
    Text(String),
    /// A code span's literal content.
    Code(String),
    /// Emphasised content.
    Emph(Vec<Inline>),
    /// Strongly emphasised content.
    Strong(Vec<Inline>),
    /// A link: its label, destination and title (empty for none).
    Link { label: Vec<Inline>, url: String, title: String },
    /// A line break inside a paragraph that is not a hard break.
    SoftBreak,
}

/// The Markdown text of the inline run `cs`.
pub open spec fn inlines_text(cs: Seq<Inline>) -> Seq<char>
    decreases cs,
{
    if cs.len() == 0 {
        Seq::empty()
    } else {
        let last = cs[cs.len() - 1];
        let before = inlines_text(cs.drop_last());
        before + match last {
            Inline::Text(t) => escaped(t@),
            Inline::Code(c) => code_span(c@),
            Inline::Emph(children) => seq!['*'] + inlines_text(children@) + seq!['*'],
            Inline::Strong(children) => seq!['*', '*'] + inlines_text(children@) + seq!['*', '*'],
            Inline::Link { label, url, title } => seq!['['] + inlines_text(label@) + seq![']', '(']
                + url@ + link_title(title@) + seq![')'],
            Inline::SoftBreak => seq![' '],
        }
    }
}

/// The title segment of a link: left out when the title is empty.
pub open spec fn link_title(title: Seq<char>) -> Seq<char> {
    if title.len() == 0 {
        Seq::empty()
    } else {
        seq![' ', '"'] + title + seq!['"']
    }
}


/// Writes the inline run `cs`.
fn push_inlines(out: &mut String, cs: &Vec<Inline>)
    ensures
        final(out)@ == old(out)@ + inlines_text(cs@),
    decreases cs@,
{
    let mut k: usize = 0;
    while k < cs.len()
        invariant
            k <= cs@.len(),
            out@ == old(out)@ + inlines_text(cs@.take(k as int)),
        decreases cs.len() - k,
    {
        let ghost before = out@;
        let ghost prefix = cs@.take(k as int);
        let ghost next = cs@.take(k + 1);
        assert(next.drop_last() =~= prefix);
        assert(next[next.len() - 1] == cs@[k as int]);
        assert(decreases_to!(cs@ => cs@[k as int]));
        match &cs[k] {
            Inline::Text(t) => {
                let e = escape_text(t.as_str());
                out.append(e.as_str());
            },
            Inline::Code(c) => {
                let e = format_code_span(c.as_str());
                out.append(e.as_str());
            },
            Inline::Emph(children) => {
                push_char(out, '*');
                push_inlines(out, children);
                push_char(out, '*');
            },
            Inline::Strong(children) => {
                push_char(out, '*');
                push_char(out, '*');
                push_inlines(out, children);
                push_char(out, '*');
                push_char(out, '*');
            },
            Inline::Link { label, url, title } => {
                push_char(out, '[');
                push_inlines(out, label);
                push_char(out, ']');
                push_char(out, '(');
                out.append(url.as_str());
                if title.as_str().unicode_len() > 0 {
                    push_char(out, ' ');
                    push_char(out, '"');
                    out.append(title.as_str());
                    push_char(out, '"');
                }
                push_char(out, ')');
            },
            Inline::SoftBreak => {
                push_char(out, ' ');
            },
        }
        assert(out@ =~= old(out)@ + inlines_text(next));
        k += 1;
    }
    assert(cs@.take(cs@.len() as int) =~= cs@);
}

/// Renders an inline run: text escaped, code spans delimited, emphasis
/// with `*` and `**`, links as `[label](url "title")`.
pub fn render_inlines(cs: &Vec<Inline>) -> (r: String)
    ensures
        r@ == inlines_text(cs@),
{
    let mut out = String::new();
    push_inlines(&mut out, cs);
    assert(out@ =~= inlines_text(cs@));
    out
}

} // verus!
