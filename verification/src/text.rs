//! Texts as sequences of characters: comparing, cutting and joining them.
use vstd::prelude::*;
use vstd::string::*;
use vstd::utf8::encode_utf8_decode_utf8;

verus! {

/// The characters of `s`, in order.
pub fn chars_of(s: &str) -> (out: Vec<char>)
    ensures
        out@ == s@,
{
    let mut out: Vec<char> = Vec::new();
    let it = s.chars();
    for c in iter: it
        invariant
            out@ == iter.seq().take(iter.index() as int),
            iter.seq() == s@,
    {
        out.push(c);
    }
    out
}

/// Whether two texts hold the same characters.
pub fn same_text(a: &str, b: &str) -> (same: bool)
    ensures
        same == (a@ == b@),
{
    let x = a.as_bytes();
    let y = b.as_bytes();
    proof {
        // Texts with the same bytes are the same text.
        encode_utf8_decode_utf8(a@);
        encode_utf8_decode_utf8(b@);
    }
    if x.len() != y.len() {
        return false;
    }
    let mut i: usize = 0;
    while i < x.len()
        invariant
            x@ == a.spec_bytes(),
            y@ == b.spec_bytes(),
            x.len() == y.len(),
            i <= x.len(),
            x@.take(i as int) == y@.take(i as int),
        decreases x.len() - i,
    {
        if x[i] != y[i] {
            return false;
        }
        assert(x@.take(i + 1) =~= x@.take(i as int).push(x@[i as int]));
        assert(y@.take(i + 1) =~= y@.take(i as int).push(y@[i as int]));
        i += 1;
    }
    assert(x@ =~= x@.take(i as int));
    assert(y@ =~= y@.take(i as int));
    true
}

/// The strict dictionary order on texts: the first character in which two
/// texts differ decides, and a text comes before each of its extensions.
pub open spec fn text_less(a: Seq<char>, b: Seq<char>) -> bool
    decreases a.len(),
{
    if b.len() == 0 {
        false
    } else if a.len() == 0 {
        true
    } else if a[0] == b[0] {
        text_less(a.drop_first(), b.drop_first())
    } else {
        a[0] < b[0]
    }
}

/// Whether `a` comes strictly before `b` in dictionary order.
pub fn is_text_less(a: &str, b: &str) -> (less: bool)
    ensures
        less == text_less(a@, b@),
{
    let x = chars_of(a);
    let y = chars_of(b);
    let mut i: usize = 0;
    assert(x@.skip(0) =~= x@ && y@.skip(0) =~= y@);
    while i < x.len() && i < y.len() && x[i] == y[i]
        invariant
            i <= x.len(),
            i <= y.len(),
            text_less(x@, y@) == text_less(x@.skip(i as int), y@.skip(i as int)),
        decreases x.len() - i,
    {
        assert(x@.skip(i as int).drop_first() =~= x@.skip(i + 1));
        assert(y@.skip(i as int).drop_first() =~= y@.skip(i + 1));
        i += 1;
    }
    if i >= y.len() {
        false
    } else if i >= x.len() {
        true
    } else {
        x[i] < y[i]
    }
}

/// No text comes before itself, and of two texts at most one comes before
/// the other.
pub proof fn lemma_text_less_asymmetric(a: Seq<char>, b: Seq<char>)
    ensures
        !(text_less(a, b) && text_less(b, a)),
    decreases a.len(),
{
    if a.len() > 0 && b.len() > 0 && a[0] == b[0] {
        lemma_text_less_asymmetric(a.drop_first(), b.drop_first());
    }
}

/// Of two different texts one comes before the other.
pub proof fn lemma_text_less_total(a: Seq<char>, b: Seq<char>)
    ensures
        a == b || text_less(a, b) || text_less(b, a),
    decreases a.len(),
{
    if a.len() > 0 && b.len() > 0 && a[0] == b[0] {
        lemma_text_less_total(a.drop_first(), b.drop_first());
        if a.drop_first() == b.drop_first() {
            assert(a =~= seq![a[0]] + a.drop_first());
            assert(b =~= seq![b[0]] + b.drop_first());
        }
    } else if a.len() == 0 && b.len() == 0 {
        assert(a =~= b);
    }
}

/// What comes before a text comes before all that the text comes before.
pub proof fn lemma_text_less_transitive(a: Seq<char>, b: Seq<char>, c: Seq<char>)
    requires
        text_less(a, b),
        text_less(b, c),
    ensures
        text_less(a, c),
    decreases a.len(),
{
    if a.len() > 0 && a[0] == b[0] && b[0] == c[0] {
        lemma_text_less_transitive(a.drop_first(), b.drop_first(), c.drop_first());
    }
}

/// Where the first comma of `s` stands; the length of `s` where it holds none.
pub open spec fn first_comma(s: Seq<char>) -> int
    decreases s.len(),
{
    if s.len() == 0 || s[0] == ',' {
        0
    } else {
        1 + first_comma(s.drop_first())
    }
}

/// Whether `s` holds no comma.
pub open spec fn comma_free(s: Seq<char>) -> bool {
    forall|i: int| 0 <= i < s.len() ==> s[i] != ','
}

/// The pieces of `s` between its commas, in order. There is always at least
/// one piece: a text without a comma is its own single piece.
pub open spec fn split_text(s: Seq<char>) -> Seq<Seq<char>>
    decreases s.len(),
{
    let i = first_comma(s);
    if 0 <= i < s.len() {
        seq![s.take(i)] + split_text(s.skip(i + 1))
    } else {
        seq![s]
    }
}

/// The pieces written one after the other, with a comma between neighbours.
pub open spec fn join_text(parts: Seq<Seq<char>>) -> Seq<char>
    decreases parts.len(),
{
    if parts.len() == 0 {
        Seq::empty()
    } else if parts.len() == 1 {
        parts[0]
    } else {
        join_text(parts.drop_last()).push(',') + parts.last()
    }
}

/// The first comma stands at `n` when nothing before `n` is a comma and `n`
/// is the end of the text or a comma.
pub proof fn lemma_first_comma_at(s: Seq<char>, n: int)
    requires
        0 <= n <= s.len(),
        forall|k: int| 0 <= k < n ==> s[k] != ',',
        n == s.len() || s[n] == ',',
    ensures
        first_comma(s) == n,
    decreases s.len(),
{
    if n > 0 {
        lemma_first_comma_at(s.drop_first(), n - 1);
    }
}

/// A text without a comma is its own single piece.
pub proof fn lemma_split_comma_free(s: Seq<char>)
    requires
        comma_free(s),
    ensures
        split_text(s) == seq![s],
{
    lemma_first_comma_at(s, s.len() as int);
}

/// Cutting yields at least one piece.
pub proof fn lemma_split_not_empty(s: Seq<char>)
    ensures
        split_text(s).len() >= 1,
    decreases s.len(),
{
    let i = first_comma(s);
    if 0 <= i < s.len() {
        lemma_split_not_empty(s.skip(i + 1));
    }
}

/// Behind a text and a comma, a piece without a comma is one more piece.
pub proof fn lemma_split_append(a: Seq<char>, b: Seq<char>)
    requires
        comma_free(b),
    ensures
        split_text(a.push(',') + b) == split_text(a).push(b),
    decreases a.len(),
{
    let whole = a.push(',') + b;
    let i = first_comma(a);
    if 0 <= i < a.len() {
        lemma_first_comma_bounds(a);
        assert forall|k: int| 0 <= k < i implies whole[k] != ',' by {
            assert(whole[k] == a[k]);
        }
        assert(whole[i] == a[i]);
        lemma_first_comma_at(whole, i);
        assert(whole.take(i) =~= a.take(i));
        assert(whole.skip(i + 1) =~= a.skip(i + 1).push(',') + b);
        lemma_split_append(a.skip(i + 1), b);
        assert(split_text(whole) =~= split_text(a).push(b));
    } else {
        lemma_first_comma_bounds(a);
        assert forall|k: int| 0 <= k < a.len() implies whole[k] != ',' by {
            assert(whole[k] == a[k]);
        }
        lemma_first_comma_at(whole, a.len() as int);
        assert(whole.take(a.len() as int) =~= a);
        assert(whole.skip(a.len() as int + 1) =~= b);
        lemma_split_comma_free(b);
        assert(split_text(whole) =~= split_text(a).push(b));
    }
}

/// The first comma lies within the text or at its end, behind what holds no
/// comma, and where it lies within the text a comma stands there.
pub proof fn lemma_first_comma_bounds(s: Seq<char>)
    ensures
        0 <= first_comma(s) <= s.len(),
        forall|k: int| 0 <= k < first_comma(s) ==> s[k] != ',',
        first_comma(s) < s.len() ==> s[first_comma(s)] == ',',
    decreases s.len(),
{
    if s.len() > 0 && s[0] != ',' {
        let rest = s.drop_first();
        lemma_first_comma_bounds(rest);
        assert forall|k: int| 0 <= k < first_comma(s) implies s[k] != ',' by {
            if k > 0 {
                assert(s[k] == rest[k - 1]);
            }
        }
    }
}

/// Pieces without commas, at least one of them, come back when they are
/// joined and the line is cut again.
pub proof fn lemma_split_join(parts: Seq<Seq<char>>)
    requires
        parts.len() >= 1,
        forall|i: int| 0 <= i < parts.len() ==> comma_free(#[trigger] parts[i]),
    ensures
        split_text(join_text(parts)) == parts,
    decreases parts.len(),
{
    if parts.len() == 1 {
        lemma_split_comma_free(parts[0]);
        assert(seq![parts[0]] =~= parts);
    } else {
        let front = parts.drop_last();
        assert forall|i: int| 0 <= i < front.len() implies comma_free(#[trigger] front[i]) by {
            assert(front[i] == parts[i]);
        }
        lemma_split_join(front);
        lemma_split_append(join_text(front), parts.last());
        assert(front.push(parts.last()) =~= parts);
    }
}

/// A line is what its pieces give when they are joined.
pub proof fn lemma_join_split(s: Seq<char>)
    ensures
        join_text(split_text(s)) == s,
    decreases s.len(),
{
    let i = first_comma(s);
    lemma_first_comma_bounds(s);
    if 0 <= i < s.len() {
        let rest = s.skip(i + 1);
        lemma_join_split(rest);
        lemma_split_not_empty(rest);
        lemma_join_prepend(s.take(i), split_text(rest));
        assert(s.take(i).push(',') + rest =~= s);
    }
}

/// Joining a piece in front of others writes the piece, a comma, and the
/// others joined.
pub proof fn lemma_join_prepend(first: Seq<char>, others: Seq<Seq<char>>)
    requires
        others.len() >= 1,
    ensures
        join_text(seq![first] + others) == first.push(',') + join_text(others),
    decreases others.len(),
{
    let all = seq![first] + others;
    assert(all.drop_last() =~= seq![first] + others.drop_last());
    assert(all.last() == others.last());
    if others.len() == 1 {
        assert(all.drop_last() =~= seq![first]);
        assert(join_text(all.drop_last()) == first);
        assert(join_text(others) == others[0]);
    } else {
        lemma_join_prepend(first, others.drop_last());
        assert(join_text(all) =~= first.push(',') + join_text(others));
    }
}

/// Cuts `s` at its commas.
pub fn split_commas(s: &str) -> (parts: Vec<String>)
    ensures
        parts.deep_view() == split_text(s@),
        parts.len() >= 1,
{
    let cs = chars_of(s);
    let mut parts: Vec<String> = Vec::new();
    let mut start: usize = 0;
    let mut i: usize = 0;
    assert(s@.skip(0) =~= s@);
    assert(parts.deep_view() + split_text(s@) =~= split_text(s@));
    while i < cs.len()
        invariant
            cs@ == s@,
            start <= i <= cs.len(),
            forall|k: int| start <= k < i ==> cs@[k] != ',',
            split_text(s@) == parts.deep_view() + split_text(s@.skip(start as int)),
        decreases cs.len() - i,
    {
        if cs[i] == ',' {
            let piece = s.substring_char(start, i).to_owned();
            proof {
                let rest = s@.skip(start as int);
                lemma_first_comma_at(rest, i - start);
                assert(rest.take(i - start) =~= s@.subrange(start as int, i as int));
                assert(rest.skip(i - start + 1) =~= s@.skip(i + 1));
                assert(parts.deep_view().push(piece@) + split_text(s@.skip(i + 1))
                    =~= parts.deep_view() + split_text(rest));
            }
            let ghost before = parts.deep_view();
            parts.push(piece);
            assert(parts.deep_view() =~= before.push(piece@));
            start = i + 1;
        }
        i += 1;
    }
    let piece = s.substring_char(start, i).to_owned();
    proof {
        let rest = s@.skip(start as int);
        lemma_first_comma_at(rest, i - start);
        assert(rest =~= s@.subrange(start as int, i as int));
        assert(parts.deep_view().push(piece@) =~= parts.deep_view() + split_text(rest));
    }
    let ghost before = parts.deep_view();
    parts.push(piece);
    assert(parts.deep_view() =~= before.push(piece@));
    parts
}

/// Writes the pieces one after the other, with a comma between neighbours.
pub fn join_commas(parts: &Vec<String>) -> (line: String)
    ensures
        line@ == join_text(parts.deep_view()),
{
    let mut line = String::new();
    let mut i: usize = 0;
    assert(parts.deep_view().take(0) =~= Seq::<Seq<char>>::empty());
    while i < parts.len()
        invariant
            i <= parts.len(),
            line@ == join_text(parts.deep_view().take(i as int)),
        decreases parts.len() - i,
    {
        proof {
            reveal_strlit(",");
            let done = parts.deep_view().take(i as int);
            let next = parts.deep_view().take(i + 1);
            assert(next.drop_last() =~= done);
            assert(next.last() == parts@[i as int]@);
            if i > 0 {
                assert(line@ + ","@ + parts@[i as int]@ =~= join_text(done).push(',') + next.last());
            } else {
                assert(line@ + parts@[i as int]@ =~= next.last());
            }
        }
        if i > 0 {
            line.append(",");
        }
        line.append(parts[i].as_str());
        i += 1;
    }
    assert(parts.deep_view().take(i as int) =~= parts.deep_view());
    line
}

/// Whether `c` is white space: a space, a tab, a line break or one of the
/// other blank characters of Unicode.
pub open spec fn is_blank(c: char) -> bool {
    ||| c == ' '
    ||| ('\u{9}' <= c && c <= '\u{d}')
    ||| c == '\u{85}'
    ||| c == '\u{a0}'
    ||| c == '\u{1680}'
    ||| ('\u{2000}' <= c && c <= '\u{200a}')
    ||| c == '\u{2028}'
    ||| c == '\u{2029}'
    ||| c == '\u{202f}'
    ||| c == '\u{205f}'
    ||| c == '\u{3000}'
}

/// Whether `c` is white space.
pub fn blank(c: char) -> (r: bool)
    ensures
        r == is_blank(c),
{
    c == ' ' || ('\u{9}' <= c && c <= '\u{d}') || c == '\u{85}' || c == '\u{a0}' || c
        == '\u{1680}' || ('\u{2000}' <= c && c <= '\u{200a}') || c == '\u{2028}' || c
        == '\u{2029}' || c == '\u{202f}' || c == '\u{205f}' || c == '\u{3000}'
}

/// `s` without the white space it begins with.
pub open spec fn trim_start_text(s: Seq<char>) -> Seq<char>
    decreases s.len(),
{
    if s.len() > 0 && is_blank(s[0]) {
        trim_start_text(s.drop_first())
    } else {
        s
    }
}

/// `s` without the white space it ends with.
pub open spec fn trim_end_text(s: Seq<char>) -> Seq<char>
    decreases s.len(),
{
    if s.len() > 0 && is_blank(s.last()) {
        trim_end_text(s.drop_last())
    } else {
        s
    }
}

/// `s` without the white space around it.
pub open spec fn trim_text(s: Seq<char>) -> Seq<char> {
    trim_end_text(trim_start_text(s))
}

/// Removes the white space around `s`.
pub fn trim(s: &str) -> (out: String)
    ensures
        out@ == trim_text(s@),
{
    let cs = chars_of(s);
    let mut lo: usize = 0;
    assert(s@.skip(0) =~= s@);
    while lo < cs.len() && blank(cs[lo])
        invariant
            cs@ == s@,
            lo <= cs.len(),
            trim_start_text(s@) == trim_start_text(s@.skip(lo as int)),
        decreases cs.len() - lo,
    {
        assert(s@.skip(lo as int).drop_first() =~= s@.skip(lo + 1));
        lo += 1;
    }
    let mut hi: usize = cs.len();
    assert(s@.skip(lo as int) =~= s@.subrange(lo as int, hi as int));
    while hi > lo && blank(cs[hi - 1])
        invariant
            cs@ == s@,
            lo <= hi <= cs.len(),
            trim_text(s@) == trim_end_text(s@.subrange(lo as int, hi as int)),
        decreases hi,
    {
        assert(s@.subrange(lo as int, hi as int).drop_last() =~= s@.subrange(
            lo as int,
            hi - 1,
        ));
        hi -= 1;
    }
    s.substring_char(lo, hi).to_owned()
}

/// Whether `c` is anything but a single quote.
pub open spec fn not_quote(c: char) -> bool {
    c != '\''
}

/// `s` with every single quote taken out.
pub open spec fn unquote_text(s: Seq<char>) -> Seq<char> {
    s.filter(|c: char| not_quote(c))
}

/// Takes every single quote out of `s`.
pub fn unquote(s: &str) -> (out: String)
    ensures
        out@ == unquote_text(s@),
{
    let cs = chars_of(s);
    let mut out = String::new();
    let mut start: usize = 0;
    let mut i: usize = 0;
    let ghost keep = |c: char| not_quote(c);
    proof {
        reveal(Seq::filter);
        assert(s@.take(0) =~= Seq::<char>::empty());
        assert(s@.subrange(0, 0) =~= Seq::<char>::empty());
    }
    while i < cs.len()
        invariant
            cs@ == s@,
            start <= i <= cs.len(),
            keep == (|c: char| not_quote(c)),
            forall|k: int| start <= k < i ==> not_quote(cs@[k]),
            out@ + s@.subrange(start as int, i as int) == s@.take(i as int).filter(keep),
        decreases cs.len() - i,
    {
        proof {
            reveal(Seq::filter);
            assert(s@.take(i + 1).drop_last() =~= s@.take(i as int));
        }
        if cs[i] == '\'' {
            out.append(s.substring_char(start, i));
            start = i + 1;
            assert(s@.subrange(start as int, i + 1) =~= Seq::<char>::empty());
            assert(out@ + s@.subrange(start as int, i + 1) =~= out@);
        } else {
            assert(out@ + s@.subrange(start as int, i + 1) =~= (out@ + s@.subrange(
                start as int,
                i as int,
            )).push(s@[i as int]));
        }
        i += 1;
    }
    out.append(s.substring_char(start, i));
    assert(s@.take(i as int) =~= s@);
    out
}

} // verus!
