//! The tokenizer: from the text of a query to its tokens.
//!
//! A run of letters is one token, and so is a run of digits and a run of
//! symbols. What stands between two single quotes is one token, without the
//! quotes. White space, commas and semicolons separate tokens and are part
//! of none outside quotes.
//!
//! Parentheses are read in one of two ways. In an `INSERT` they enclose
//! lists: what stands between an opening parenthesis and the next closing
//! one is one token, without the parentheses, to be cut at its commas by
//! whoever reads it. In every other statement they group conditions, and
//! each parenthesis is a token of its own.
use vstd::prelude::*;
use vstd::string::*;
use crate::text::{blank, chars_of, is_blank};
use crate::utils::is_insert;

verus! {

/// Whether `c` can stand in a name: a letter of the Latin alphabet, an
/// underscore, or any character beyond ASCII that is not white space.
pub open spec fn is_letter(c: char) -> bool {
    ('a' <= c && c <= 'z') || ('A' <= c && c <= 'Z') || c == '_' || (c > '\u{7f}' && !is_blank(c))
}

/// Whether `c` is one of the digits `0` to `9`.
pub open spec fn is_digit(c: char) -> bool {
    '0' <= c && c <= '9'
}

/// Whether `c` separates tokens: white space, a comma or a semicolon.
pub open spec fn is_separator(c: char) -> bool {
    is_blank(c) || c == ',' || c == ';'
}

/// Whether `c` is a parenthesis.
pub open spec fn is_paren(c: char) -> bool {
    c == '(' || c == ')'
}

/// Whether `c` opens a span of which the content is one token: a single
/// quote, and where parentheses enclose lists an opening parenthesis.
pub open spec fn opens_span(c: char, lists: bool) -> bool {
    c == '\'' || (lists && c == '(')
}

/// The character that closes the span that `open` opens.
pub open spec fn closing(open: char) -> char {
    if open == '(' {
        ')'
    } else {
        '\''
    }
}

/// Whether `c` is a symbol: neither a letter nor a digit, no separator, no
/// quote and no parenthesis.
pub open spec fn is_symbol(c: char) -> bool {
    !is_letter(c) && !is_digit(c) && !is_separator(c) && c != '\'' && !is_paren(c)
}

/// Whether `a` and `b` can stand side by side in one run: both letters,
/// both digits, or both symbols.
pub open spec fn same_kind(a: char, b: char) -> bool {
    (is_letter(a) && is_letter(b)) || (is_digit(a) && is_digit(b)) || (is_symbol(a) && is_symbol(
        b,
    ))
}

/// The position behind the run in which the character at `from` stands: the
/// run goes on as long as each character is of the kind of the one before.
pub open spec fn run_end(s: Seq<char>, from: int) -> int
    decreases s.len() - from,
{
    if 0 <= from && from + 1 < s.len() && same_kind(s[from], s[from + 1]) {
        run_end(s, from + 1)
    } else {
        from + 1
    }
}

/// The first position at or behind `from` where `s` holds `close`; the end
/// of `s`, or `from` itself if that lies outside, where `close` does not
/// follow.
pub open spec fn span_end(s: Seq<char>, from: int, close: char) -> int
    decreases s.len() - from,
{
    if 0 <= from < s.len() && s[from] != close {
        span_end(s, from + 1, close)
    } else {
        from
    }
}

/// A run ends behind where it starts, and within the text.
pub proof fn lemma_run_end_bounds(s: Seq<char>, from: int)
    requires
        0 <= from < s.len(),
    ensures
        from < run_end(s, from) <= s.len(),
    decreases s.len() - from,
{
    if from + 1 < s.len() && same_kind(s[from], s[from + 1]) {
        lemma_run_end_bounds(s, from + 1);
    }
}

/// A span ends at or behind where its content starts, and within the text
/// or at its end.
pub proof fn lemma_span_end_bounds(s: Seq<char>, from: int, close: char)
    requires
        0 <= from <= s.len(),
    ensures
        from <= span_end(s, from, close) <= s.len(),
    decreases s.len() - from,
{
    if from < s.len() && s[from] != close {
        lemma_span_end_bounds(s, from + 1, close);
    }
}

/// The tokens of `s` from `pos` on, parentheses enclosing lists if `lists`
/// and grouping conditions if not.
///
/// A separator is passed over. A character that opens a span gives the text
/// up to the character that closes it as one token, and that character is
/// passed over; where none closes it, the token reaches to the end of the
/// text. A parenthesis that opens no span is a token of its own. Any other
/// character gives the run in which it stands.
pub open spec fn tokens_from(s: Seq<char>, pos: int, lists: bool) -> Seq<Seq<char>>
    decreases
            (if pos <= s.len() {
                s.len() - pos
            } else {
                0
            }),
{
    if pos < 0 || pos >= s.len() {
        Seq::empty()
    } else if is_separator(s[pos]) {
        tokens_from(s, pos + 1, lists)
    } else if opens_span(s[pos], lists) {
        let end = span_end(s, pos + 1, closing(s[pos]));
        proof {
            lemma_span_end_bounds(s, pos + 1, closing(s[pos]));
        }
        seq![s.subrange(pos + 1, end)] + tokens_from(s, end + 1, lists)
    } else if is_paren(s[pos]) {
        seq![s.subrange(pos, pos + 1)] + tokens_from(s, pos + 1, lists)
    } else {
        let end = run_end(s, pos);
        proof {
            lemma_run_end_bounds(s, pos);
        }
        seq![s.subrange(pos, end)] + tokens_from(s, end, lists)
    }
}

/// The tokens of the query `s`: read with parentheses that enclose lists
/// where its first token is `INSERT`, and with parentheses that group
/// conditions where it is not.
pub open spec fn tokens_of(s: Seq<char>) -> Seq<Seq<char>> {
    let grouped = tokens_from(s, 0, false);
    if grouped.len() > 0 && grouped[0] == "INSERT"@ {
        tokens_from(s, 0, true)
    } else {
        grouped
    }
}

/// Whether `s` holds, at `pos` or behind it, a character that does not
/// separate tokens.
pub open spec fn holds_text(s: Seq<char>, pos: int) -> bool {
    exists|i: int| pos <= i < s.len() && !is_separator(#[trigger] s[i])
}

/// There is a token from `pos` on exactly when a character that does not
/// separate tokens stands there or behind.
pub proof fn lemma_tokens_from_len(s: Seq<char>, pos: int, lists: bool)
    requires
        0 <= pos,
    ensures
        tokens_from(s, pos, lists).len() > 0 <==> holds_text(s, pos),
    decreases s.len() - pos,
{
    if pos < s.len() {
        if is_separator(s[pos]) {
            lemma_tokens_from_len(s, pos + 1, lists);
            if holds_text(s, pos) {
                let i = choose|i: int| pos <= i < s.len() && !is_separator(#[trigger] s[i]);
                assert(pos + 1 <= i);
            }
        } else {
            assert(!is_separator(s[pos]));
        }
    }
}

/// A query has a token exactly when it holds a character that does not
/// separate tokens.
pub proof fn lemma_tokens_of_len(s: Seq<char>)
    ensures
        tokens_of(s).len() > 0 <==> holds_text(s, 0),
{
    lemma_tokens_from_len(s, 0, false);
    lemma_tokens_from_len(s, 0, true);
}

/// Whether `c` can stand in a name.
pub fn letter(c: char) -> (r: bool)
    ensures
        r == is_letter(c),
{
    ('a' <= c && c <= 'z') || ('A' <= c && c <= 'Z') || c == '_' || (c > '\u{7f}' && !blank(c))
}

/// Whether `c` is one of the digits `0` to `9`.
pub fn digit(c: char) -> (r: bool)
    ensures
        r == is_digit(c),
{
    '0' <= c && c <= '9'
}

/// Whether `c` separates tokens.
pub fn separator(c: char) -> (r: bool)
    ensures
        r == is_separator(c),
{
    blank(c) || c == ',' || c == ';'
}

/// Whether `c` is a symbol.
pub fn symbol(c: char) -> (r: bool)
    ensures
        r == is_symbol(c),
{
    !letter(c) && !digit(c) && !separator(c) && c != '\'' && c != '(' && c != ')'
}

/// Whether `a` and `b` can stand side by side in one run.
pub fn alike(a: char, b: char) -> (r: bool)
    ensures
        r == same_kind(a, b),
{
    (letter(a) && letter(b)) || (digit(a) && digit(b)) || (symbol(a) && symbol(b))
}

/// Cuts `query` into tokens, parentheses enclosing lists if `lists` and
/// grouping conditions if not.
pub fn tokenize(query: &str, lists: bool) -> (tokens: Vec<String>)
    ensures
        tokens.deep_view() == tokens_from(query@, 0, lists),
{
    let ghost s = query@;
    let cs = chars_of(query);
    let n = cs.len();
    let mut tokens: Vec<String> = Vec::new();
    let mut pos: usize = 0;
    assert(tokens.deep_view() + tokens_from(s, 0, lists) =~= tokens_from(s, 0, lists));
    while pos < n
        invariant
            s == query@,
            cs@ == s,
            n == cs.len(),
            pos <= n,
            tokens_from(s, 0, lists) == tokens.deep_view() + tokens_from(s, pos as int, lists),
        decreases n - pos,
    {
        let c = cs[pos];
        if separator(c) {
            pos += 1;
        } else if c == '\'' || (lists && c == '(') {
            let close = if c == '(' {
                ')'
            } else {
                '\''
            };
            let mut end = pos + 1;
            while end < n && cs[end] != close
                invariant
                    cs@ == s,
                    n == cs.len(),
                    pos < end <= n,
                    span_end(s, pos + 1, close) == span_end(s, end as int, close),
                decreases n - end,
            {
                end += 1;
            }
            let token = query.substring_char(pos + 1, end).to_owned();
            let ghost before = tokens.deep_view();
            tokens.push(token);
            proof {
                assert(tokens.deep_view() =~= before.push(s.subrange(pos + 1, end as int)));
                assert(before + (seq![s.subrange(pos + 1, end as int)] + tokens_from(
                    s,
                    end + 1,
                    lists,
                )) =~= tokens.deep_view() + tokens_from(s, end + 1, lists));
            }
            if end < n {
                pos = end + 1;
            } else {
                assert(tokens_from(s, end + 1, lists) =~= tokens_from(s, n as int, lists));
                pos = n;
            }
        } else {
            let mut end = pos + 1;
            if c != '(' && c != ')' {
                let mut last = pos;
                while last + 1 < n && alike(cs[last], cs[last + 1])
                    invariant
                        cs@ == s,
                        n == cs.len(),
                        pos <= last < n,
                        run_end(s, pos as int) == run_end(s, last as int),
                    decreases n - last,
                {
                    last += 1;
                }
                end = last + 1;
            }
            let token = query.substring_char(pos, end).to_owned();
            let ghost before = tokens.deep_view();
            tokens.push(token);
            proof {
                assert(tokens.deep_view() =~= before.push(s.subrange(pos as int, end as int)));
                assert(before + (seq![s.subrange(pos as int, end as int)] + tokens_from(
                    s,
                    end as int,
                    lists,
                )) =~= tokens.deep_view() + tokens_from(s, end as int, lists));
            }
            pos = end;
        }
    }
    assert(tokens.deep_view() + tokens_from(s, pos as int, lists) =~= tokens.deep_view());
    tokens
}

/// Cuts the text of a query into its tokens.
pub fn tokens_from_query(query: &str) -> (tokens: Vec<String>)
    ensures
        tokens.deep_view() == tokens_of(query@),
        tokens.len() > 0 <==> holds_text(query@, 0),
{
    proof {
        lemma_tokens_of_len(query@);
    }
    let grouped = tokenize(query, false);
    if grouped.len() > 0 {
        assert(grouped.deep_view()[0] == grouped@[0]@);
        if is_insert(grouped[0].as_str()) {
            return tokenize(query, true);
        }
    }
    grouped
}

} // verus!
