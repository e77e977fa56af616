//! Escaping of inline text, code-span delimiters and table cells.

use vstd::prelude::*;
use crate::chars::{
    alphanumeric, chars_of, is_alphanumeric, is_whitespace, push_char, push_chars, push_repeated,
    repeat, whitespace,
};

verus! {

/// Length of the run of `c` at the start of `s`.
pub open spec fn leading_run(s: Seq<char>, c: char) -> nat
    decreases s.len(),
{
    if s.len() > 0 && s[0] == c {
        1 + leading_run(s.drop_first(), c)
    } else {
        0
    }
}

/// Length of the run of `c` at the end of `s`.
pub open spec fn trailing_run(s: Seq<char>, c: char) -> nat
    decreases s.len(),
{
    if s.len() > 0 && s.last() == c {
        1 + trailing_run(s.drop_last(), c)
    } else {
        0
    }
}

pub(crate) proof fn lemma_leading_run(s: Seq<char>, c: char, n: int)
    requires
        0 <= n <= s.len(),
        forall|j: int| 0 <= j < n ==> s[j] == c,
        n == s.len() || s[n] != c,
    ensures
        leading_run(s, c) == n,
    decreases n,
{
    if n > 0 {
        lemma_leading_run(s.drop_first(), c, n - 1);
    }
}

proof fn lemma_trailing_run(s: Seq<char>, c: char, n: int)
    requires
        0 <= n <= s.len(),
        forall|j: int| s.len() - n <= j < s.len() ==> s[j] == c,
        n == s.len() || s[s.len() - n - 1] != c,
    ensures
        trailing_run(s, c) == n,
    decreases n,
{
    if n > 0 {
        lemma_trailing_run(s.drop_last(), c, n - 1);
    }
}

/// Whether `s` is delimited as a code span: a backtick run at the start,
/// a run of the same length at the end, together no longer than `s`.
pub open spec fn valid_code_span(s: Seq<char>) -> bool {
    let lead = leading_run(s, '`');
    lead >= 1 && trailing_run(s, '`') == lead && lead <= s.len() / 2
}

/// Whether `source` starts and ends with matching backtick runs, as text
/// recovered by position must when it is a code span.
pub fn is_valid_code_span(source: &str) -> (r: bool)
    ensures
        r == valid_code_span(source@),
{
    let s = chars_of(source);
    let n = s.len();
    let mut lead: usize = 0;
    while lead < n && s[lead] == '`'
        invariant
            lead <= n,
            n == s@.len(),
            forall|j: int| 0 <= j < lead ==> s@[j] == '`',
        decreases n - lead,
    {
        lead += 1;
    }
    proof {
        lemma_leading_run(s@, '`', lead as int);
    }
    if lead == 0 {
        return false;
    }
    let mut trail: usize = 0;
    while trail < n && s[n - 1 - trail] == '`'
        invariant
            trail <= n,
            n == s@.len(),
            forall|j: int| n - trail <= j < n ==> s@[j] == '`',
        decreases n - trail,
    {
        trail += 1;
    }
    proof {
        lemma_trailing_run(s@, '`', trail as int);
    }
    lead == trail && lead <= n / 2
}


/// Whether the character at `i` of `s` is escaped when `s` is rendered as
/// inline text. Asterisks, backslashes and backticks always are; an
/// underscore unless both neighbours are alphanumeric; a `[` that could open
/// a link (it is not last and not followed by another `[`); a `]` that could
/// close one (not first, not after `]`, and followed by `(` or `[`).
pub open spec fn needs_escape(s: Seq<char>, i: int) -> bool {
    let c = s[i];
    let n = s.len();
    ||| c == '*'
    ||| c == '\\'
    ||| c == '`'
    ||| (c == '_' && !(0 < i && i + 1 < n && alphanumeric(s[i - 1]) && alphanumeric(s[i + 1])))
    ||| (c == '[' && i + 1 < n && s[i + 1] != '[')
    ||| (c == ']' && 0 < i && s[i - 1] != ']' && i + 1 < n && (s[i + 1] == '(' || s[i + 1]
        == '['))
}

/// The rendering of the character at `i`: itself, after a backslash when
/// it needs one.
pub open spec fn escaped_char(s: Seq<char>, i: int) -> Seq<char> {
    if needs_escape(s, i) {
        seq!['\\', s[i]]
    } else {
        seq![s[i]]
    }
}

/// The rendering of the first `n` characters of `s`.
pub open spec fn escaped_prefix(s: Seq<char>, n: int) -> Seq<char>
    decreases n,
{
    if n <= 0 {
        Seq::empty()
    } else {
        escaped_prefix(s, n - 1) + escaped_char(s, n - 1)
    }
}

/// `s` rendered as inline text.
pub open spec fn escaped(s: Seq<char>) -> Seq<char> {
    escaped_prefix(s, s.len() as int)
}

/// Escapes the characters of `text` that a Markdown reader could take for
/// syntax, and no others.
pub fn escape_text(text: &str) -> (r: String)
    ensures
        r@ == escaped(text@),
{
    let s = chars_of(text);
    let n = s.len();
    let mut result = String::new();
    let mut i: usize = 0;
    while i < n
        invariant
            i <= n,
            n == s@.len(),
            s@ == text@,
            result@ == escaped_prefix(s@, i as int),
        decreases n - i,
    {
        let c = s[i];
        let escape = if c == '*' || c == '\\' || c == '`' {
            true
        } else if c == '_' {
            !(0 < i && i + 1 < n && is_alphanumeric(s[i - 1]) && is_alphanumeric(s[i + 1]))
        } else if c == '[' {
            i + 1 < n && s[i + 1] != '['
        } else if c == ']' {
            0 < i && s[i - 1] != ']' && i + 1 < n && (s[i + 1] == '(' || s[i + 1] == '[')
        } else {
            false
        };
        assert(escape == needs_escape(s@, i as int));
        if escape {
            push_char(&mut result, '\\');
        }
        push_char(&mut result, c);
        assert(result@ =~= escaped_prefix(s@, i as int) + escaped_char(s@, i as int));
        i += 1;
    }
    result
}

/// The escaping adds a backslash only before `*`, `_`, `[`, `]`, `\` and
/// `` ` ``: every other character is written as it stands.
pub proof fn lemma_escape_only_syntax(s: Seq<char>, i: int)
    requires
        0 <= i < s.len(),
        !(s[i] == '*' || s[i] == '_' || s[i] == '[' || s[i] == ']' || s[i] == '\\' || s[i]
            == '`'),
    ensures
        escaped_char(s, i) == seq![s[i]],
{
}

/// What a Markdown reader makes of backslash escapes in `t`: a backslash
/// followed by a character stands for that character.
pub open spec fn unescaped(t: Seq<char>) -> Seq<char>
    decreases t.len(),
{
    if t.len() == 0 {
        Seq::empty()
    } else if t[0] == '\\' && t.len() >= 2 {
        seq![t[1]] + unescaped(t.skip(2))
    } else {
        seq![t[0]] + unescaped(t.skip(1))
    }
}

proof fn lemma_unescape_char(s: Seq<char>, i: int, rest: Seq<char>)
    requires
        0 <= i < s.len(),
    ensures
        unescaped(escaped_char(s, i) + rest) == seq![s[i]] + unescaped(rest),
{
    let t = escaped_char(s, i) + rest;
    if needs_escape(s, i) {
        assert(t.skip(2) =~= rest);
    } else {
        assert(t.skip(1) =~= rest);
    }
}

proof fn lemma_unescape_prefix(s: Seq<char>, n: int, rest: Seq<char>)
    requires
        0 <= n <= s.len(),
    ensures
        unescaped(escaped_prefix(s, n) + rest) == s.take(n) + unescaped(rest),
    decreases n,
{
    if n == 0 {
        assert(escaped_prefix(s, 0) + rest =~= rest);
        assert(s.take(0) + unescaped(rest) =~= unescaped(rest));
    } else {
        let piece = escaped_char(s, n - 1);
        assert(escaped_prefix(s, n) + rest =~= escaped_prefix(s, n - 1) + (piece + rest));
        lemma_unescape_prefix(s, n - 1, piece + rest);
        lemma_unescape_char(s, n - 1, rest);
        assert(s.take(n - 1) + (seq![s[n - 1]] + unescaped(rest)) =~= s.take(n) + unescaped(rest));
    }
}

/// Escaping loses nothing: reading the escapes back gives the text that
/// was escaped.
pub proof fn lemma_escape_text_reversible(s: Seq<char>)
    ensures
        unescaped(escaped(s)) == s,
{
    lemma_unescape_prefix(s, s.len() as int, Seq::empty());
    assert(escaped(s) + Seq::<char>::empty() =~= escaped(s));
    assert(s.take(s.len() as int) + unescaped(Seq::<char>::empty()) =~= s);
}

/// The whitespace-normalised form of the first `n` characters of `s`: runs
/// of whitespace are dropped at the start and the end, and collapse to one
/// space between other characters.
pub open spec fn normalized_prefix(s: Seq<char>, n: int) -> Seq<char>
    decreases n,
{
    if n <= 0 {
        Seq::empty()
    } else {
        let p = normalized_prefix(s, n - 1);
        let c = s[n - 1];
        if whitespace(c) {
            p
        } else if n >= 2 && whitespace(s[n - 2]) && p.len() > 0 {
            p + seq![' ', c]
        } else {
            p.push(c)
        }
    }
}

/// `s` with its whitespace normalised.
pub open spec fn normalized(s: Seq<char>) -> Seq<char> {
    normalized_prefix(s, s.len() as int)
}

/// Collapses each run of whitespace (line breaks included) to one space,
/// and drops whitespace at both ends.
pub fn normalize_whitespace(text: &str) -> (r: String)
    ensures
        r@ == normalized(text@),
{
    let s = chars_of(text);
    let n = s.len();
    let mut result = String::new();
    let mut any: bool = false;
    let mut i: usize = 0;
    while i < n
        invariant
            i <= n,
            n == s@.len(),
            s@ == text@,
            result@ == normalized_prefix(s@, i as int),
            any == (result@.len() > 0),
        decreases n - i,
    {
        let c = s[i];
        if !is_whitespace(c) {
            if i >= 1 && any && is_whitespace(s[i - 1]) {
                push_char(&mut result, ' ');
            }
            push_char(&mut result, c);
            any = true;
        }
        assert(result@ =~= normalized_prefix(s@, i + 1));
        i += 1;
    }
    result
}

/// Length of the backtick run that ends just before position `n` of `s`.
pub open spec fn backtick_run_before(s: Seq<char>, n: int) -> nat
    decreases n,
{
    if n <= 0 {
        0
    } else if s[n - 1] == '`' {
        backtick_run_before(s, n - 1) + 1
    } else {
        0
    }
}

/// Length of the longest backtick run among the first `n` characters of `s`.
pub open spec fn longest_backtick_run(s: Seq<char>, n: int) -> nat
    decreases n,
{
    if n <= 0 {
        0
    } else {
        let a = longest_backtick_run(s, n - 1);
        let b = backtick_run_before(s, n);
        if a >= b {
            a
        } else {
            b
        }
    }
}

/// Whether `s` consists of spaces only.
pub open spec fn all_spaces(s: Seq<char>) -> bool {
    forall|i: int| 0 <= i < s.len() ==> s[i] == ' '
}

/// Whether a code span around `s` needs a space inside each delimiter:
/// when `s` starts or ends with a backtick, which would merge with the
/// delimiter, or with a space, which a reader would strip, unless `s` is
/// all spaces.
pub open spec fn code_span_padded(s: Seq<char>) -> bool {
    s.len() > 0 && (s[0] == '`' || s.last() == '`' || ((s[0] == ' ' || s.last() == ' ')
        && !all_spaces(s)))
}

/// `s` as a code span: delimiters one backtick longer than the longest
/// backtick run inside, and a space inside each where `code_span_padded`
/// asks for it.
pub open spec fn code_span(s: Seq<char>) -> Seq<char> {
    let d = repeat('`', longest_backtick_run(s, s.len() as int) + 1);
    if code_span_padded(s) {
        d + seq![' '] + s + seq![' '] + d
    } else {
        d + s + d
    }
}

/// Writes `content` as a code span whose delimiters cannot be mistaken for
/// any backtick run inside it.
pub fn format_code_span(content: &str) -> (r: String)
    ensures
        r@ == code_span(content@),
{
    let s = chars_of(content);
    let n = s.len();
    let mut longest: usize = 0;
    let mut current: usize = 0;
    let mut i: usize = 0;
    while i < n
        invariant
            i <= n,
            n == s@.len(),
            current == backtick_run_before(s@, i as int),
            longest == longest_backtick_run(s@, i as int),
            current <= i,
            longest <= i,
        decreases n - i,
    {
        if s[i] == '`' {
            current += 1;
        } else {
            current = 0;
        }
        if current > longest {
            longest = current;
        }
        i += 1;
    }
    let mut spaces_only = true;
    let mut k: usize = 0;
    while k < n
        invariant
            k <= n,
            n == s@.len(),
            spaces_only == forall|j: int| 0 <= j < k ==> s@[j] == ' ',
        decreases n - k,
    {
        spaces_only = spaces_only && s[k] == ' ';
        k += 1;
    }
    let padded = n > 0 && (s[0] == '`' || s[n - 1] == '`' || ((s[0] == ' ' || s[n - 1] == ' ')
        && !spaces_only));
    let mut result = String::new();
    push_repeated(&mut result, '`', longest);
    push_char(&mut result, '`');
    if padded {
        push_char(&mut result, ' ');
    }
    push_chars(&mut result, &s);
    if padded {
        push_char(&mut result, ' ');
    }
    push_repeated(&mut result, '`', longest);
    push_char(&mut result, '`');
    assert(repeat('`', (longest + 1) as nat) =~= repeat('`', longest as nat).push('`'));
    assert(result@ =~= code_span(content@));
    result
}

/// No backtick run inside a code span's content is as long as its
/// delimiters.
pub proof fn lemma_code_span_delimiter_longest(s: Seq<char>, n: int)
    requires
        0 <= n <= s.len(),
    ensures
        backtick_run_before(s, n) < longest_backtick_run(s, s.len() as int) + 1,
{
    lemma_longest_run_monotone(s, n, s.len() as int);
}

proof fn lemma_longest_run_monotone(s: Seq<char>, m: int, n: int)
    requires
        0 <= m <= n,
    ensures
        backtick_run_before(s, m) <= longest_backtick_run(s, n),
    decreases n - m,
{
    if m < n {
        lemma_longest_run_monotone(s, m, n - 1);
    }
}


/// `s` as table-cell text: each `|` not already escaped gets a backslash; a
/// backslash and the character after it are copied as they stand.
pub open spec fn cell_escaped(s: Seq<char>) -> Seq<char>
    decreases s.len(),
{
    if s.len() == 0 {
        Seq::empty()
    } else if s[0] == '\\' && s.len() >= 2 {
        seq![s[0], s[1]] + cell_escaped(s.skip(2))
    } else if s[0] == '|' {
        seq!['\\', '|'] + cell_escaped(s.skip(1))
    } else {
        seq![s[0]] + cell_escaped(s.skip(1))
    }
}

/// Escapes the pipes of `content` that would otherwise end a table cell,
/// without escaping twice a pipe that already has its backslash.
pub fn escape_table_cell(content: &str) -> (r: String)
    ensures
        r@ == cell_escaped(content@),
{
    let s = chars_of(content);
    let n = s.len();
    let mut result = String::new();
    let mut i: usize = 0;
    assert(s@.skip(0) =~= s@);
    assert(result@ + cell_escaped(s@) =~= cell_escaped(s@));
    while i < n
        invariant
            i <= n,
            n == s@.len(),
            s@ == content@,
            cell_escaped(s@) == result@ + cell_escaped(s@.skip(i as int)),
        decreases n - i,
    {
        let ghost rest = s@.skip(i as int);
        if s[i] == '\\' && i + 1 < n {
            assert(rest.skip(2) =~= s@.skip(i + 2));
            push_char(&mut result, s[i]);
            push_char(&mut result, s[i + 1]);
            i += 2;
        } else {
            assert(rest.skip(1) =~= s@.skip(i + 1));
            if s[i] == '|' {
                push_char(&mut result, '\\');
                push_char(&mut result, '|');
            } else {
                push_char(&mut result, s[i]);
            }
            i += 1;
        }
        assert(cell_escaped(s@) =~= result@ + cell_escaped(s@.skip(i as int)));
    }
    assert(s@.skip(n as int) =~= Seq::<char>::empty());
    assert(result@ =~= result@ + cell_escaped(s@.skip(n as int)));
    result
}

} // verus!
