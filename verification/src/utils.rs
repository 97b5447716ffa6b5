//! The words of the query language.
use vstd::prelude::*;
use crate::text::{chars_of, same_text};

verus! {

/// Whether each character of `s` is one of the digits `0` to `9`.
pub open spec fn all_digits(s: Seq<char>) -> bool {
    forall|i: int| 0 <= i < s.len() ==> '0' <= #[trigger] s[i] && s[i] <= '9'
}

/// The number that the digits `s` write in base ten.
pub open spec fn decimal_value(s: Seq<char>) -> nat
    decreases s.len(),
{
    if s.len() == 0 {
        0
    } else {
        (decimal_value(s.drop_last()) * 10 + (s.last() as u32 - '0' as u32)) as nat
    }
}

/// Whether `s` writes a whole number that fits in 32 bits with a sign: an
/// optional `+` or `-`, then at least one digit and nothing else, the
/// number lying between -2147483648 and 2147483647.
pub open spec fn is_number_text(s: Seq<char>) -> bool {
    let signed = s.len() > 0 && (s[0] == '-' || s[0] == '+');
    let digits = if signed {
        s.drop_first()
    } else {
        s
    };
    let limit: nat = if s.len() > 0 && s[0] == '-' {
        2147483648
    } else {
        2147483647
    };
    digits.len() > 0 && all_digits(digits) && decimal_value(digits) <= limit
}

/// Whether `token` writes a whole number that fits in 32 bits with a sign.
pub fn is_number(token: &str) -> (r: bool)
    ensures
        r == is_number_text(token@),
{
    let cs = chars_of(token);
    let n = cs.len();
    if n == 0 {
        return false;
    }
    let signed = cs[0] == '-' || cs[0] == '+';
    let limit: u64 = if cs[0] == '-' {
        2147483648
    } else {
        2147483647
    };
    let first: usize = if signed {
        1
    } else {
        0
    };
    let ghost digits = if signed {
        token@.drop_first()
    } else {
        token@
    };
    assert(digits =~= token@.skip(first as int));
    if first >= n {
        return false;
    }
    let mut value: u64 = 0;
    let mut i: usize = first;
    assert(digits.take(0) =~= Seq::<char>::empty());
    while i < n
        invariant
            cs@ == token@,
            n == cs.len(),
            first <= i <= n,
            digits == token@.skip(first as int),
            !is_number_text(token@) || all_digits(digits),
            limit <= 2147483648,
            all_digits(digits.take(i - first)),
            value <= limit + 1,
            decimal_value(digits.take(i - first)) <= limit ==> value == decimal_value(
                digits.take(i - first),
            ),
            decimal_value(digits.take(i - first)) > limit ==> value == limit + 1,
        decreases n - i,
    {
        let c = cs[i];
        proof {
            let longer = digits.take(i - first + 1);
            assert(longer.drop_last() =~= digits.take(i - first));
            assert(longer.last() == c);
        }
        if !('0' <= c && c <= '9') {
            proof {
                assert(digits[i - first] == c);
            }
            return false;
        }
        let d: u64 = (c as u32 - '0' as u32) as u64;
        if value <= limit {
            value = value * 10 + d;
            if value > limit {
                value = limit + 1;
            }
        }
        i += 1;
    }
    assert(digits.take(i - first) =~= digits);
    value <= limit
}

/// Whether `token` is the word `AND`.
pub fn is_and(token: &str) -> (r: bool)
    ensures
        r == (token@ == "AND"@),
{
    same_text(token, "AND")
}

/// Whether `token` is the word `OR`.
pub fn is_or(token: &str) -> (r: bool)
    ensures
        r == (token@ == "OR"@),
{
    same_text(token, "OR")
}

/// Whether `token` is the word `NOT`.
pub fn is_not(token: &str) -> (r: bool)
    ensures
        r == (token@ == "NOT"@),
{
    same_text(token, "NOT")
}

/// Whether `token` is an opening parenthesis.
pub fn is_left_paren(token: &str) -> (r: bool)
    ensures
        r == (token@ == "("@),
{
    same_text(token, "(")
}

/// Whether `token` is a closing parenthesis.
pub fn is_right_paren(token: &str) -> (r: bool)
    ensures
        r == (token@ == ")"@),
{
    same_text(token, ")")
}

/// Whether `token` is the word `WHERE`.
pub fn is_where(token: &str) -> (r: bool)
    ensures
        r == (token@ == "WHERE"@),
{
    same_text(token, "WHERE")
}

/// Whether `token` is the word `SELECT`.
pub fn is_select(token: &str) -> (r: bool)
    ensures
        r == (token@ == "SELECT"@),
{
    same_text(token, "SELECT")
}

/// Whether `token` is the word `UPDATE`.
pub fn is_update(token: &str) -> (r: bool)
    ensures
        r == (token@ == "UPDATE"@),
{
    same_text(token, "UPDATE")
}

/// Whether `token` is the word `INSERT`.
pub fn is_insert(token: &str) -> (r: bool)
    ensures
        r == (token@ == "INSERT"@),
{
    same_text(token, "INSERT")
}

/// Whether `token` is the word `INTO`.
pub fn is_into(token: &str) -> (r: bool)
    ensures
        r == (token@ == "INTO"@),
{
    same_text(token, "INTO")
}

/// Whether `token` is the word `FROM`.
pub fn is_from(token: &str) -> (r: bool)
    ensures
        r == (token@ == "FROM"@),
{
    same_text(token, "FROM")
}

/// Whether `token` is the word `ORDER`.
pub fn is_order(token: &str) -> (r: bool)
    ensures
        r == (token@ == "ORDER"@),
{
    same_text(token, "ORDER")
}

/// Whether `token` is the word `BY`.
pub fn is_by(token: &str) -> (r: bool)
    ensures
        r == (token@ == "BY"@),
{
    same_text(token, "BY")
}

/// Whether `token` is the word `DELETE`.
pub fn is_delete(token: &str) -> (r: bool)
    ensures
        r == (token@ == "DELETE"@),
{
    same_text(token, "DELETE")
}

/// Whether `token` is the word `SET`.
pub fn is_set(token: &str) -> (r: bool)
    ensures
        r == (token@ == "SET"@),
{
    same_text(token, "SET")
}

/// Whether `token` is the word `VALUES`.
pub fn is_values(token: &str) -> (r: bool)
    ensures
        r == (token@ == "VALUES"@),
{
    same_text(token, "VALUES")
}

/// Whether the token at `pos` exists and is `word`.
pub open spec fn token_is(tokens: Seq<Seq<char>>, pos: int, word: Seq<char>) -> bool {
    0 <= pos < tokens.len() && tokens[pos] == word
}

/// The first position at or behind `from` where `tokens` holds `word`; the
/// end of `tokens`, or `from` itself if that lies outside, where no such
/// position exists.
pub open spec fn first_word(tokens: Seq<Seq<char>>, from: int, word: Seq<char>) -> int
    decreases tokens.len() - from,
{
    if 0 <= from < tokens.len() && tokens[from] != word {
        first_word(tokens, from + 1, word)
    } else {
        from
    }
}

/// `first_word` is where `word` stands first: no token from `from` up to
/// it is `word`, and it is the end of the tokens or holds `word`.
pub proof fn lemma_first_word(tokens: Seq<Seq<char>>, from: int, word: Seq<char>)
    requires
        0 <= from <= tokens.len(),
    ensures
        from <= first_word(tokens, from, word) <= tokens.len(),
        forall|k: int| from <= k < first_word(tokens, from, word) ==> tokens[k] != word,
        first_word(tokens, from, word) < tokens.len() ==> tokens[first_word(tokens, from, word)]
            == word,
    decreases tokens.len() - from,
{
    if from < tokens.len() && tokens[from] != word {
        lemma_first_word(tokens, from + 1, word);
    }
}

/// Finds the first position at or behind `from` where `tokens` holds `word`.
pub fn find_word(tokens: &Vec<String>, from: usize, word: &str) -> (at: usize)
    ensures
        at == first_word(tokens.deep_view(), from as int, word@),
        from <= at,
        from <= tokens.len() ==> at <= tokens.len(),
{
    let mut at = from;
    while at < tokens.len() && !same_text(tokens[at].as_str(), word)
        invariant
            from <= at,
            from <= tokens.len() ==> at <= tokens.len(),
            first_word(tokens.deep_view(), from as int, word@) == first_word(
                tokens.deep_view(),
                at as int,
                word@,
            ),
        decreases tokens.len() - at,
    {
        at += 1;
    }
    at
}

/// The tokens from `from` up to `to`, borrowed.
pub(crate) fn borrow_range<'a>(tokens: &'a Vec<String>, from: usize, to: usize) -> (part: Vec<&'a str>)
    requires
        from <= to <= tokens.len(),
    ensures
        part.deep_view() == tokens.deep_view().subrange(from as int, to as int),
{
    let mut part: Vec<&'a str> = Vec::new();
    let mut i = from;
    while i < to
        invariant
            from <= i <= to <= tokens.len(),
            part.deep_view() == tokens.deep_view().subrange(from as int, i as int),
        decreases to - i,
    {
        let ghost before = part.deep_view();
        part.push(tokens[i].as_str());
        assert(part.deep_view() =~= before.push(tokens@[i as int]@));
        assert(part.deep_view() =~= tokens.deep_view().subrange(from as int, i + 1));
        i += 1;
    }
    part
}

} // verus!
