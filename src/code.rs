//! Fenced code blocks, in the three contexts a block can stand in.

use vstd::prelude::*;
use crate::chars::{chars_of, is_whitespace, push_char, push_chars, push_repeated, repeat, whitespace};
use crate::escape::leading_run;
use crate::config::CodeBlockConfig;
use crate::serializer::{quote_prefix, Serializer};

verus! {

/// `line` without a carriage return at its end.
pub open spec fn without_cr(line: Seq<char>) -> Seq<char> {
    if line.len() > 0 && line.last() == '\r' {
        line.drop_last()
    } else {
        line
    }
}

/// The lines ended by a line feed among the first `n` characters of `s`,
/// and the unfinished line after them.
pub open spec fn lines_upto(s: Seq<char>, n: int) -> (Seq<Seq<char>>, Seq<char>)
    decreases n,
{
    if n <= 0 {
        (Seq::empty(), Seq::empty())
    } else {
        let (done, cur) = lines_upto(s, n - 1);
        if s[n - 1] == '\n' {
            (done.push(without_cr(cur)), Seq::empty())
        } else {
            (done, cur.push(s[n - 1]))
        }
    }
}

/// The lines of `s`: split at each line feed, a carriage return before a
/// line feed dropped, and no empty line after a final line feed.
pub open spec fn lines(s: Seq<char>) -> Seq<Seq<char>> {
    let (done, cur) = lines_upto(s, s.len() as int);
    if cur.len() > 0 {
        done.push(cur)
    } else {
        done
    }
}

/// `s` without its leading whitespace.
pub open spec fn trim_start(s: Seq<char>) -> Seq<char>
    decreases s.len(),
{
    if s.len() > 0 && whitespace(s[0]) {
        trim_start(s.drop_first())
    } else {
        s
    }
}

/// The run of fence characters that opens `line`, indentation skipped.
pub open spec fn fence_run(line: Seq<char>, fence_char: char) -> nat {
    leading_run(trim_start(line), fence_char)
}

/// The longest fence run among the first `k` lines.
pub open spec fn longest_fence_run(ls: Seq<Seq<char>>, fence_char: char, k: int) -> nat
    decreases k,
{
    if k <= 0 {
        0
    } else {
        let a = longest_fence_run(ls, fence_char, k - 1);
        let b = fence_run(ls[k - 1], fence_char);
        if a >= b {
            a
        } else {
            b
        }
    }
}

/// The fence length for a block of lines `ls`: at least `min_len`, and
/// longer than every fence run that opens one of the lines.
pub open spec fn fence_length(ls: Seq<Seq<char>>, fence_char: char, min_len: nat) -> nat {
    let m = longest_fence_run(ls, fence_char, ls.len() as int) + 1;
    if min_len >= m {
        min_len
    } else {
        m
    }
}

/// Splits `s` into its lines.
pub(crate) fn split_lines(s: &Vec<char>) -> (r: Vec<Vec<char>>)
    ensures
        line_views(r@) == lines(s@),
        forall|k: int| 0 <= k < r@.len() ==> #[trigger] r@[k]@.len() <= s@.len(),
{
    let mut done: Vec<Vec<char>> = Vec::new();
    let mut cur: Vec<char> = Vec::new();
    let mut i: usize = 0;
    while i < s.len()
        invariant
            i <= s@.len(),
            (line_views(done@), cur@) == lines_upto(s@, i as int),
            forall|k: int| 0 <= k < done@.len() ==> #[trigger] done@[k]@.len() <= i,
            cur@.len() <= i,
        decreases s.len() - i,
    {
        let c = s[i];
        if c == '\n' {
            if cur.len() > 0 && cur[cur.len() - 1] == '\r' {
                cur.pop();
            }
            let ghost before = done@;
            done.push(cur);
            assert(line_views(done@) =~= line_views(before).push(
                done@.last()@,
            ));
            cur = Vec::new();
        } else {
            cur.push(c);
        }
        i += 1;
    }
    let ghost before = done@;
    if cur.len() > 0 {
        done.push(cur);
        assert(line_views(done@) =~= line_views(before).push(
            done@.last()@,
        ));
    }
    done
}

/// The fence run that opens `line`.
fn measure_fence_run(line: &Vec<char>, fence_char: char) -> (r: usize)
    ensures
        r == fence_run(line@, fence_char),
        r <= line@.len(),
{
    let n = line.len();
    let mut i: usize = 0;
    assert(line@.skip(0) =~= line@);
    while i < n && is_whitespace(line[i])
        invariant
            i <= n,
            n == line@.len(),
            trim_start(line@) == trim_start(line@.skip(i as int)),
        decreases n - i,
    {
        assert(line@.skip(i as int).drop_first() =~= line@.skip(i + 1));
        i += 1;
    }
    let ghost t = line@.skip(i as int);
    assert(trim_start(t) == t);
    let mut j: usize = i;
    while j < n && line[j] == fence_char
        invariant
            i <= j <= n,
            n == line@.len(),
            t == line@.skip(i as int),
            leading_run(t, fence_char) == (j - i) + leading_run(line@.skip(j as int), fence_char),
        decreases n - j,
    {
        assert(line@.skip(j as int).drop_first() =~= line@.skip(j + 1));
        j += 1;
    }
    j - i
}


/// The fence is longer than the fence run that opens any line of the
/// block, and never shorter than the configured minimum, so no line of the
/// content can close the block early.
pub proof fn lemma_fence_outruns_content(ls: Seq<Seq<char>>, fence_char: char, min_len: nat)
    ensures
        min_len <= fence_length(ls, fence_char, min_len),
        forall|k: int|
            0 <= k < ls.len() ==> fence_run(#[trigger] ls[k], fence_char) < fence_length(
                ls,
                fence_char,
                min_len,
            ),
{
    assert forall|k: int| 0 <= k < ls.len() implies fence_run(#[trigger] ls[k], fence_char)
        < fence_length(ls, fence_char, min_len) by {
        lemma_longest_fence_run_bound(ls, fence_char, k, ls.len() as int);
    }
}

/// A content line made only of fence characters (say five `~`) forces a
/// fence at least one longer than the line, whatever the configured
/// minimum.
pub proof fn lemma_fence_line_forces_longer_fence(cfg: CodeBlockConfig, literal: Seq<char>, k: int)
    requires
        0 <= k < lines(literal).len(),
        !whitespace(cfg.fence_char),
        forall|i: int|
            0 <= i < lines(literal)[k].len() ==> #[trigger] lines(literal)[k][i] == cfg.fence_char,
    ensures
        fence_of(cfg, literal).len() >= lines(literal)[k].len() + 1,
        fence_of(cfg, literal).len() >= cfg.min_fence_length,
        forall|i: int| 0 <= i < fence_of(cfg, literal).len() ==> #[trigger] fence_of(cfg, literal)[i]
            == cfg.fence_char,
{
    let ls = lines(literal);
    let l = ls[k];
    assert(trim_start(l) == l);
    crate::escape::lemma_leading_run(l, cfg.fence_char, l.len() as int);
    lemma_fence_outruns_content(ls, cfg.fence_char, cfg.min_fence_length as nat);
}

proof fn lemma_longest_fence_run_bound(ls: Seq<Seq<char>>, fence_char: char, k: int, n: int)
    requires
        0 <= k < n <= ls.len(),
    ensures
        fence_run(ls[k], fence_char) <= longest_fence_run(ls, fence_char, n),
    decreases n - k,
{
    if k < n - 1 {
        lemma_longest_fence_run_bound(ls, fence_char, k, n - 1);
    }
}

/// The view of a sequence of character vectors.
pub open spec fn line_views(ls: Seq<Vec<char>>) -> Seq<Seq<char>> {
    ls.map_values(|l: Vec<char>| l@)
}

/// The fence length for the lines `ls`.
fn measure_fence_length(ls: &Vec<Vec<char>>, fence_char: char, min_len: usize) -> (r: usize)
    requires
        forall|k: int| 0 <= k < ls@.len() ==> #[trigger] ls@[k]@.len() < usize::MAX,
    ensures
        r == fence_length(line_views(ls@), fence_char, min_len as nat),
{
    let ghost views = line_views(ls@);
    let mut longest: usize = 0;
    let mut k: usize = 0;
    while k < ls.len()
        invariant
            k <= ls@.len(),
            views == line_views(ls@),
            forall|j: int| 0 <= j < ls@.len() ==> #[trigger] ls@[j]@.len() < usize::MAX,
            longest == longest_fence_run(views, fence_char, k as int),
            longest < usize::MAX,
        decreases ls.len() - k,
    {
        let run = measure_fence_run(&ls[k], fence_char);
        assert(views[k as int] == ls@[k as int]@);
        if run > longest {
            longest = run;
        }
        k += 1;
    }
    if min_len >= longest + 1 {
        min_len
    } else {
        longest + 1
    }
}

/// `"> "` where the block stands in a block quote.
fn push_quote(out: &mut String, in_block_quote: bool)
    ensures
        final(out)@ == old(out)@ + quote_prefix(in_block_quote),
{
    if in_block_quote {
        push_char(out, '>');
        push_char(out, ' ');
    }
    assert(final(out)@ =~= old(out)@ + quote_prefix(in_block_quote));
}

/// One content line: the quote prefix, then the indentation and the line
/// (both left out for an empty line where `skip_empty` holds), then a line
/// feed.
pub open spec fn body_line(
    line: Seq<char>,
    in_block_quote: bool,
    indent: Seq<char>,
    skip_empty: bool,
) -> Seq<char> {
    quote_prefix(in_block_quote) + (if skip_empty && line.len() == 0 {
        Seq::empty()
    } else {
        indent + line
    }) + seq!['\n']
}

/// The first `k` content lines of `ls`.
pub open spec fn body_text(
    ls: Seq<Seq<char>>,
    in_block_quote: bool,
    indent: Seq<char>,
    skip_empty: bool,
    k: int,
) -> Seq<char>
    decreases k,
{
    if k <= 0 {
        Seq::empty()
    } else {
        body_text(ls, in_block_quote, indent, skip_empty, k - 1) + body_line(
            ls[k - 1],
            in_block_quote,
            indent,
            skip_empty,
        )
    }
}

/// All content lines of `ls`.
pub open spec fn body(ls: Seq<Seq<char>>, in_block_quote: bool, indent: Seq<char>, skip_empty: bool) -> Seq<char> {
    body_text(ls, in_block_quote, indent, skip_empty, ls.len() as int)
}

fn push_body(out: &mut String, ls: &Vec<Vec<char>>, in_block_quote: bool, indent: &str, skip_empty: bool)
    ensures
        final(out)@ == old(out)@ + body(line_views(ls@), in_block_quote, indent@, skip_empty),
{
    let ghost views = line_views(ls@);
    let mut k: usize = 0;
    while k < ls.len()
        invariant
            k <= ls@.len(),
            views == line_views(ls@),
            out@ == old(out)@ + body_text(views, in_block_quote, indent@, skip_empty, k as int),
        decreases ls.len() - k,
    {
        let ghost before = out@;
        assert(views[k as int] == ls@[k as int]@);
        push_quote(out, in_block_quote);
        if !(skip_empty && ls[k].len() == 0) {
            out.append(indent);
            push_chars(out, &ls[k]);
        }
        push_char(out, '\n');
        assert(out@ =~= before + body_line(views[k as int], in_block_quote, indent@, skip_empty));
        k += 1;
    }
}

/// A space where the settings ask for one after the opening fence.
pub open spec fn fence_space(space_after_fence: bool) -> Seq<char> {
    if space_after_fence {
        seq![' ']
    } else {
        Seq::empty()
    }
}

/// The info string written after the opening fence: `text` where none is
/// given.
pub open spec fn written_info(info: Seq<char>) -> Seq<char> {
    if info.len() == 0 {
        seq!['t', 'e', 'x', 't']
    } else {
        info
    }
}

/// The fence for `literal` under `cfg`.
pub open spec fn fence_of(cfg: CodeBlockConfig, literal: Seq<char>) -> Seq<char> {
    repeat(
        cfg.fence_char,
        fence_length(lines(literal), cfg.fence_char, cfg.min_fence_length as nat),
    )
}

/// The opening fence line of a code block: the fence, the space the
/// settings ask for, and the info string (`text` where none is given).
pub open spec fn open_line(cfg: CodeBlockConfig, info: Seq<char>, literal: Seq<char>) -> Seq<char> {
    fence_of(cfg, literal) + fence_space(cfg.space_after_fence) + written_info(info) + seq!['\n']
}

/// The opening fence line of a top-level code block, after the quote
/// prefix.
pub open spec fn top_level_open(
    cfg: CodeBlockConfig,
    in_block_quote: bool,
    info: Seq<char>,
    literal: Seq<char>,
) -> Seq<char> {
    quote_prefix(in_block_quote) + open_line(cfg, info, literal)
}

/// A closing fence line: prefix, then the fence.
pub open spec fn close_line(prefix: Seq<char>, fence: Seq<char>) -> Seq<char> {
    prefix + fence + seq!['\n']
}

/// A code block at top level: every line, fences included, carries the
/// quote prefix, and the info string defaults to `text`.
pub open spec fn top_level_block(
    cfg: CodeBlockConfig,
    in_block_quote: bool,
    info: Seq<char>,
    literal: Seq<char>,
) -> Seq<char> {
    top_level_open(cfg, in_block_quote, info, literal) + body(
        lines(literal),
        in_block_quote,
        Seq::empty(),
        false,
    ) + close_line(quote_prefix(in_block_quote), fence_of(cfg, literal))
}

/// A code block inside a list item: the opening fence stands unindented
/// where the item's marker put it; content lines and the closing fence
/// carry the quote prefix and the item's indentation, empty lines only the
/// quote prefix.
pub open spec fn list_item_block(
    cfg: CodeBlockConfig,
    in_block_quote: bool,
    info: Seq<char>,
    literal: Seq<char>,
    indent: Seq<char>,
) -> Seq<char> {
    open_line(cfg, info, literal) + body(lines(literal), in_block_quote, indent, true) + close_line(
        quote_prefix(in_block_quote) + indent,
        fence_of(cfg, literal),
    )
}

/// A code block under a description's details: content lines and the
/// closing fence carry the indentation.
pub open spec fn indented_block(
    cfg: CodeBlockConfig,
    info: Seq<char>,
    literal: Seq<char>,
    indent: Seq<char>,
) -> Seq<char> {
    open_line(cfg, info, literal) + body(lines(literal), false, indent, false) + close_line(
        indent,
        fence_of(cfg, literal),
    )
}

/// Writes the opening fence line.
fn push_open_line(out: &mut String, cfg: CodeBlockConfig, info: &str, len: usize)
    ensures
        final(out)@ == old(out)@ + repeat(cfg.fence_char, len as nat) + fence_space(
            cfg.space_after_fence,
        ) + written_info(info@) + seq!['\n'],
{
    push_repeated(out, cfg.fence_char, len);
    if cfg.space_after_fence {
        push_char(out, ' ');
    }
    if info.unicode_len() == 0 {
        proof {
            reveal_strlit("text");
        }
        out.append("text");
    } else {
        out.append(info);
    }
    push_char(out, '\n');
    assert(final(out)@ =~= old(out)@ + repeat(cfg.fence_char, len as nat) + fence_space(
        cfg.space_after_fence,
    ) + written_info(info@) + seq!['\n']);
}

/// The lines of `literal` and the fence length for them.
fn prepare_block(cfg: CodeBlockConfig, literal: &str) -> (r: (Vec<Vec<char>>, usize))
    requires
        literal@.len() < usize::MAX,
    ensures
        line_views(r.0@) == lines(literal@),
        repeat(cfg.fence_char, r.1 as nat) == fence_of(cfg, literal@),
{
    let s = chars_of(literal);
    let ls = split_lines(&s);
    let len = measure_fence_length(&ls, cfg.fence_char, cfg.min_fence_length);
    assert(line_views(ls@) == lines(literal@));
    (ls, len)
}

impl Serializer {
    /// Renders a code block at top level (inside a block quote where the
    /// serializer stands in one).
    pub fn serialize_code_block(&mut self, info: &str, literal: &str)
        requires
            literal@.len() < usize::MAX,
        ensures
            final(self).output@ == old(self).output@ + top_level_block(
                old(self).config.code_block,
                old(self).in_block_quote,
                info@,
                literal@,
            ),
            final(self).config == old(self).config,
            final(self).in_block_quote == old(self).in_block_quote,
    {
        let cfg = self.config.code_block;
        let q = self.in_block_quote;
        let (ls, len) = prepare_block(cfg, literal);
        let ghost start = self.output@;
        let ghost f = fence_of(cfg, literal@);
        push_quote(&mut self.output, q);
        push_open_line(&mut self.output, cfg, info, len);
        let ghost head = self.output@;
        assert(head =~= start + top_level_open(cfg, q, info@, literal@));
        push_body(&mut self.output, &ls, q, "", false);
        proof {
            reveal_strlit("");
            assert(""@ =~= Seq::<char>::empty());
        }
        let ghost bd = body(lines(literal@), q, Seq::empty(), false);
        let ghost mid = self.output@;
        assert(mid == head + bd);
        push_quote(&mut self.output, q);
        push_repeated(&mut self.output, cfg.fence_char, len);
        push_char(&mut self.output, '\n');
        assert(self.output@ =~= mid + close_line(quote_prefix(q), f));
        assert(self.output@ =~= start + top_level_block(cfg, q, info@, literal@));
    }

    /// Renders a code block inside a list item whose content is indented
    /// by `indent`.
    pub fn serialize_code_block_indented(&mut self, info: &str, literal: &str, indent: &str)
        requires
            literal@.len() < usize::MAX,
        ensures
            final(self).output@ == old(self).output@ + list_item_block(
                old(self).config.code_block,
                old(self).in_block_quote,
                info@,
                literal@,
                indent@,
            ),
            final(self).config == old(self).config,
            final(self).in_block_quote == old(self).in_block_quote,
    {
        let cfg = self.config.code_block;
        let q = self.in_block_quote;
        let (ls, len) = prepare_block(cfg, literal);
        let ghost start = self.output@;
        let ghost f = fence_of(cfg, literal@);
        push_open_line(&mut self.output, cfg, info, len);
        let ghost head = self.output@;
        assert(head == start + open_line(cfg, info@, literal@));
        push_body(&mut self.output, &ls, q, indent, true);
        let ghost mid = self.output@;
        assert(mid == head + body(lines(literal@), q, indent@, true));
        push_quote(&mut self.output, q);
        self.output.append(indent);
        push_repeated(&mut self.output, cfg.fence_char, len);
        push_char(&mut self.output, '\n');
        assert(self.output@ =~= mid + close_line(quote_prefix(q) + indent@, f));
        assert(self.output@ =~= start + list_item_block(cfg, q, info@, literal@, indent@));
    }

    /// Renders a code block under a description's details, indented by
    /// `indent`.
    pub fn serialize_code_block_with_indent(&mut self, info: &str, literal: &str, indent: &str)
        requires
            literal@.len() < usize::MAX,
        ensures
            final(self).output@ == old(self).output@ + indented_block(
                old(self).config.code_block,
                info@,
                literal@,
                indent@,
            ),
            final(self).config == old(self).config,
            final(self).in_block_quote == old(self).in_block_quote,
    {
        let cfg = self.config.code_block;
        let (ls, len) = prepare_block(cfg, literal);
        let ghost start = self.output@;
        let ghost f = fence_of(cfg, literal@);
        push_open_line(&mut self.output, cfg, info, len);
        let ghost head = self.output@;
        assert(head == start + open_line(cfg, info@, literal@));
        push_body(&mut self.output, &ls, false, indent, false);
        let ghost mid = self.output@;
        assert(mid == head + body(lines(literal@), false, indent@, false));
        self.output.append(indent);
        push_repeated(&mut self.output, cfg.fence_char, len);
        push_char(&mut self.output, '\n');
        assert(self.output@ =~= mid + close_line(indent@, f));
        assert(self.output@ =~= start + indented_block(cfg, info@, literal@, indent@));
    }
}

} // verus!
