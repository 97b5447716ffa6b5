//! The ordering of the rows of a `SELECT`.
use vstd::prelude::*;
use crate::errors::SqlError;
use crate::register::Register;
use crate::text::{
    is_text_less, lemma_text_less_asymmetric, lemma_text_less_total, lemma_text_less_transitive,
    same_text, text_less,
};
use crate::utils::{is_by, is_order};

verus! {

/// The ordering of the rows of a `SELECT`: the columns to order by, the
/// most significant first, and the direction, `ASC`, `DESC` or empty.
/// Only `DESC` orders downwards.
#[derive(Debug, PartialEq)]
pub struct OrderBy {
    pub columns: Vec<String>,
    pub order: String,
}

/// What an `OrderBy` holds, as texts.
pub ghost struct OrderByView {
    pub columns: Seq<Seq<char>>,
    pub order: Seq<char>,
}

impl View for OrderBy {
    type V = OrderByView;

    open spec fn view(&self) -> OrderByView {
        OrderByView { columns: self.columns.deep_view(), order: self.order@ }
    }
}

impl OrderByView {
    /// Whether the rows are to be ordered downwards.
    pub open spec fn descending(self) -> bool {
        self.order == "DESC"@
    }
}

/// Whether `token` names a direction.
pub open spec fn is_direction(token: Seq<char>) -> bool {
    token == "DESC"@ || token == "ASC"@
}

/// The first position at or behind `from` where `tokens` names a direction;
/// the end of `tokens`, or `from` itself if that lies outside, where none
/// does.
pub open spec fn first_direction(tokens: Seq<Seq<char>>, from: int) -> int
    decreases tokens.len() - from,
{
    if 0 <= from < tokens.len() && !is_direction(tokens[from]) {
        first_direction(tokens, from + 1)
    } else {
        from
    }
}

/// Whether row `a` is to stand before row `b`: the first of `keys` that
/// both rows have, with different values, decides, by the dictionary order
/// of the two values, or by its reverse when `descending`. Rows between
/// which no key decides tie.
pub open spec fn row_before(
    a: Map<Seq<char>, Seq<char>>,
    b: Map<Seq<char>, Seq<char>>,
    keys: Seq<Seq<char>>,
    descending: bool,
) -> bool
    decreases keys.len(),
{
    if keys.len() == 0 {
        false
    } else {
        let k = keys[0];
        if a.contains_key(k) && b.contains_key(k) && a[k] != b[k] {
            if descending {
                text_less(b[k], a[k])
            } else {
                text_less(a[k], b[k])
            }
        } else {
            row_before(a, b, keys.drop_first(), descending)
        }
    }
}

/// Whether rows `a` and `b` have the same ones of `keys`.
pub open spec fn alike(
    a: Map<Seq<char>, Seq<char>>,
    b: Map<Seq<char>, Seq<char>>,
    keys: Seq<Seq<char>>,
) -> bool {
    forall|k: int| 0 <= k < keys.len() ==> a.contains_key(#[trigger] keys[k]) == b.contains_key(keys[k])
}

/// Whether all of `rows` have the same ones of `keys`, as the rows of one
/// table do.
pub open spec fn all_alike(rows: Seq<Map<Seq<char>, Seq<char>>>, keys: Seq<Seq<char>>) -> bool {
    forall|i: int, j: int|
        0 <= i < rows.len() && 0 <= j < rows.len() ==> alike(
            #[trigger] rows[i],
            #[trigger] rows[j],
            keys,
        )
}

/// Whether `perm` lists each of the positions `0 .. n` once.
pub open spec fn is_permutation(perm: Seq<int>, n: int) -> bool {
    &&& perm.len() == n
    &&& forall|i: int| 0 <= i < n ==> 0 <= #[trigger] perm[i] < n
    &&& forall|i: int, j: int| 0 <= i < j < n ==> #[trigger] perm[i] != #[trigger] perm[j]
}

/// The rows of `rows` at the positions that `perm` lists, in that order.
pub open spec fn permuted(rows: Seq<Map<Seq<char>, Seq<char>>>, perm: Seq<int>) -> Seq<
    Map<Seq<char>, Seq<char>>,
> {
    Seq::new(perm.len(), |i: int| rows[perm[i]])
}

/// Whether `after` is `before` put in order, stably, row `i` of `after`
/// being row `perm[i]` of `before`.
///
/// `after` always holds the rows of `before`, each as often. Where the rows
/// all have the same ones of `keys`, no row of `after` is to stand before
/// one that precedes it, and rows that tie stand as they stood in `before`.
pub open spec fn is_stable_sort(
    before: Seq<Map<Seq<char>, Seq<char>>>,
    after: Seq<Map<Seq<char>, Seq<char>>>,
    perm: Seq<int>,
    keys: Seq<Seq<char>>,
    descending: bool,
) -> bool {
    &&& after.len() == before.len()
    &&& is_permutation(perm, before.len() as int)
    &&& forall|i: int| 0 <= i < after.len() ==> #[trigger] after[i] == before[perm[i]]
    &&& all_alike(before, keys) ==> forall|i: int, j: int|
        0 <= i < j < after.len() ==> in_order(
            #[trigger] after[i],
            #[trigger] after[j],
            perm[i],
            perm[j],
            keys,
            descending,
        )
}

/// Whether row `a`, once at position `m`, may stand before row `b`, once at
/// position `n`: `b` is not to stand before `a`, and if the two tie, `a`
/// stood first.
pub open spec fn in_order(
    a: Map<Seq<char>, Seq<char>>,
    b: Map<Seq<char>, Seq<char>>,
    m: int,
    n: int,
    keys: Seq<Seq<char>>,
    descending: bool,
) -> bool {
    !row_before(b, a, keys, descending) && (row_before(a, b, keys, descending) || m < n)
}

/// The place of `row` among the first `n` rows of `sorted`: right behind
/// the last of them before which `row` is not to stand.
pub open spec fn slot(
    sorted: Seq<Map<Seq<char>, Seq<char>>>,
    row: Map<Seq<char>, Seq<char>>,
    n: int,
    keys: Seq<Seq<char>>,
    descending: bool,
) -> int
    decreases n,
{
    if n > 0 && row_before(row, sorted[n - 1], keys, descending) {
        slot(sorted, row, n - 1, keys, descending)
    } else {
        n
    }
}

/// `rows` put in order: each row in turn takes its place among those that
/// stood before it.
pub open spec fn sorted_rows(
    rows: Seq<Map<Seq<char>, Seq<char>>>,
    keys: Seq<Seq<char>>,
    descending: bool,
) -> Seq<Map<Seq<char>, Seq<char>>>
    decreases rows.len(),
{
    if rows.len() == 0 {
        rows
    } else {
        let before = sorted_rows(rows.drop_last(), keys, descending);
        before.insert(
            slot(before, rows.last(), before.len() as int, keys, descending),
            rows.last(),
        )
    }
}

/// Of two rows at most one is to stand before the other.
pub proof fn lemma_row_before_asymmetric(
    a: Map<Seq<char>, Seq<char>>,
    b: Map<Seq<char>, Seq<char>>,
    keys: Seq<Seq<char>>,
    descending: bool,
)
    ensures
        !(row_before(a, b, keys, descending) && row_before(b, a, keys, descending)),
    decreases keys.len(),
{
    if keys.len() > 0 {
        let k = keys[0];
        if a.contains_key(k) && b.contains_key(k) && a[k] != b[k] {
            lemma_text_less_asymmetric(a[k], b[k]);
        } else {
            lemma_row_before_asymmetric(a, b, keys.drop_first(), descending);
        }
    }
}

/// Among rows that have the same ones of `keys`: if `b` is not to stand
/// before `a`, nor `c` before `b`, then `c` is not to stand before `a`.
pub proof fn lemma_row_order_transitive(
    a: Map<Seq<char>, Seq<char>>,
    b: Map<Seq<char>, Seq<char>>,
    c: Map<Seq<char>, Seq<char>>,
    keys: Seq<Seq<char>>,
    descending: bool,
)
    requires
        alike(a, b, keys),
        alike(b, c, keys),
        !row_before(b, a, keys, descending),
        !row_before(c, b, keys, descending),
    ensures
        !row_before(c, a, keys, descending),
    decreases keys.len(),
{
    if keys.len() > 0 {
        let k = keys[0];
        let rest = keys.drop_first();
        assert(a.contains_key(k) == b.contains_key(k));
        assert(b.contains_key(k) == c.contains_key(k));
        assert forall|i: int| 0 <= i < rest.len() implies a.contains_key(#[trigger] rest[i])
            == b.contains_key(rest[i]) && b.contains_key(rest[i]) == c.contains_key(rest[i]) by {
            assert(rest[i] == keys[i + 1]);
        }
        if a.contains_key(k) {
            lemma_text_less_total(a[k], b[k]);
            lemma_text_less_total(b[k], c[k]);
            lemma_text_less_asymmetric(a[k], c[k]);
            if a[k] == b[k] && b[k] == c[k] {
                lemma_row_order_transitive(a, b, c, rest, descending);
            } else if a[k] == b[k] || b[k] == c[k] {
            } else if descending {
                lemma_text_less_transitive(c[k], b[k], a[k]);
            } else {
                lemma_text_less_transitive(a[k], b[k], c[k]);
            }
        } else {
            lemma_row_order_transitive(a, b, c, rest, descending);
        }
    }
}

/// Ordering downwards is ordering upwards with the two rows exchanged.
pub proof fn lemma_descending_reverses(
    a: Map<Seq<char>, Seq<char>>,
    b: Map<Seq<char>, Seq<char>>,
    keys: Seq<Seq<char>>,
)
    ensures
        row_before(a, b, keys, true) == row_before(b, a, keys, false),
    decreases keys.len(),
{
    if keys.len() > 0 {
        lemma_descending_reverses(a, b, keys.drop_first());
    }
}

/// Whether `a` is to stand before `b` when ordering by `keys`.
pub fn comes_before(a: &Register, b: &Register, keys: &Vec<String>, descending: bool) -> (r: bool)
    ensures
        r == row_before(a@, b@, keys.deep_view(), descending),
{
    let ghost ks = keys.deep_view();
    let mut i: usize = 0;
    assert(ks.skip(0) =~= ks);
    while i < keys.len()
        invariant
            ks == keys.deep_view(),
            i <= keys.len(),
            row_before(a@, b@, ks, descending) == row_before(a@, b@, ks.skip(i as int), descending),
        decreases keys.len() - i,
    {
        assert(ks.skip(i as int).drop_first() =~= ks.skip(i + 1));
        assert(ks.skip(i as int)[0] == keys@[i as int]@);
        match (a.get(keys[i].as_str()), b.get(keys[i].as_str())) {
            (Some(x), Some(y)) => {
                if !same_text(x.as_str(), y.as_str()) {
                    if descending {
                        return is_text_less(y.as_str(), x.as_str());
                    } else {
                        return is_text_less(x.as_str(), y.as_str());
                    }
                }
            },
            _ => {},
        }
        i += 1;
    }
    false
}

impl OrderBy {
    /// The ordering that `tokens` write: the words `ORDER` and `BY`, the
    /// columns, and perhaps a direction. Tokens behind the direction are
    /// not looked at.
    pub open spec fn spec_new(tokens: Seq<Seq<char>>) -> Result<OrderByView, SqlError> {
        if tokens.len() >= 3 && tokens[0] == "ORDER"@ && tokens[1] == "BY"@ {
            let d = first_direction(tokens, 2);
            Ok(
                OrderByView {
                    columns: tokens.subrange(2, d),
                    order: if d < tokens.len() {
                        tokens[d]
                    } else {
                        Seq::empty()
                    },
                },
            )
        } else {
            Err(SqlError::InvalidSyntax)
        }
    }

    /// Builds the ordering that `tokens` write.
    ///
    /// Fails with `InvalidSyntax` on fewer than three tokens, or when they
    /// do not begin with `ORDER` and `BY`.
    pub fn new_from_tokens(tokens: Vec<&str>) -> (r: Result<Self, SqlError>)
        ensures
            match r {
                Ok(o) => Self::spec_new(tokens.deep_view()) == Ok::<OrderByView, SqlError>(o@),
                Err(e) => Self::spec_new(tokens.deep_view()) == Err::<OrderByView, SqlError>(e),
            },
    {
        let ghost toks = tokens.deep_view();
        if tokens.len() < 3 || !is_order(tokens[0]) || !is_by(tokens[1]) {
            return Err(SqlError::InvalidSyntax);
        }
        let mut columns: Vec<String> = Vec::new();
        let mut i: usize = 2;
        while i < tokens.len() && !same_text(tokens[i], "DESC") && !same_text(tokens[i], "ASC")
            invariant
                toks == tokens.deep_view(),
                2 <= i <= tokens.len(),
                first_direction(toks, 2) == first_direction(toks, i as int),
                columns.deep_view() == toks.subrange(2, i as int),
            decreases tokens.len() - i,
        {
            let ghost before = columns.deep_view();
            columns.push(tokens[i].to_owned());
            assert(columns.deep_view() =~= before.push(toks[i as int]));
            assert(columns.deep_view() =~= toks.subrange(2, i + 1));
            i += 1;
        }
        let order = if i < tokens.len() {
            tokens[i].to_owned()
        } else {
            String::new()
        };
        Ok(OrderBy { columns, order })
    }

    /// Puts `registers` in order: each row in turn takes its place among
    /// those that stood before it. The ordering is stable: a row moves
    /// before another only where the columns and the direction put it
    /// there, and rows that tie keep the order in which they stood.
    pub fn execute(&self, registers: &mut Vec<Register>)
        ensures
            final(registers).deep_view() == sorted_rows(
                old(registers).deep_view(),
                self@.columns,
                self@.descending(),
            ),
            exists|perm: Seq<int>|
                is_stable_sort(
                    old(registers).deep_view(),
                    final(registers).deep_view(),
                    perm,
                    self@.columns,
                    self@.descending(),
                ),
    {
        let descending = same_text(self.order.as_str(), "DESC");
        let ghost keys = self@.columns;
        let ghost start = registers@;
        let ghost rows = registers.deep_view();
        let n = registers.len();
        let ghost mut perm: Seq<int> = Seq::new(n as nat, |i: int| i);
        let mut i: usize = 0;
        assert(registers.deep_view().take(0) =~= sorted_rows(rows.take(0), keys, descending));
        while i < n
            invariant
                registers.deep_view().take(i as int) == sorted_rows(
                    rows.take(i as int),
                    keys,
                    descending,
                ),
                keys == self.columns.deep_view(),
                descending == self@.descending(),
                n == start.len(),
                rows.len() == n,
                forall|k: int| 0 <= k < n ==> #[trigger] rows[k] == start[k]@,
                registers.len() == n,
                i <= n,
                is_permutation(perm, n as int),
                forall|k: int| 0 <= k < n ==> #[trigger] registers@[k] == start[perm[k]],
                forall|k: int| i <= k < n ==> perm[k] == k,
                forall|k: int| 0 <= k < i ==> #[trigger] perm[k] < i,
                all_alike(rows, keys) ==> forall|a: int, b: int|
                    0 <= a < b < i ==> in_order(
                        #[trigger] registers@[a]@,
                        #[trigger] registers@[b]@,
                        perm[a],
                        perm[b],
                        keys,
                        descending,
                    ),
            decreases n - i,
        {
            let mut p: usize = i;
            let ghost done = registers.deep_view().take(i as int);
            let ghost moved = registers@[i as int]@;
            while p > 0 && comes_before(&registers[i], &registers[p - 1], &self.columns, descending)
                invariant
                    keys == self.columns.deep_view(),
                    registers.len() == n,
                    p <= i < n,
                    done == registers.deep_view().take(i as int),
                    moved == registers@[i as int]@,
                    slot(done, moved, i as int, keys, descending) == slot(
                        done,
                        moved,
                        p as int,
                        keys,
                        descending,
                    ),
                    forall|k: int|
                        p <= k < i ==> row_before(
                            registers@[i as int]@,
                            #[trigger] registers@[k]@,
                            keys,
                            descending,
                        ),
                decreases p,
            {
                p -= 1;
            }
            let ghost v = registers@;
            let ghost q = perm;
            let row = registers.remove(i);
            registers.insert(p, row);
            proof {
                assert(moved == rows[i as int]);
                assert(rows.take(i + 1).drop_last() =~= rows.take(i as int));
                assert(registers.deep_view().take(i + 1) =~= done.insert(p as int, moved));
                perm = q.remove(i as int).insert(p as int, q[i as int]);
                let w = registers@;
                assert forall|k: int| 0 <= k < n implies #[trigger] w[k] == start[perm[k]]
                    && 0 <= perm[k] < n by {
                    if k < p {
                        assert(w[k] == v[k] && perm[k] == q[k]);
                    } else if k == p {
                        assert(w[k] == v[i as int] && perm[k] == q[i as int]);
                    } else if k <= i {
                        assert(w[k] == v[k - 1] && perm[k] == q[k - 1]);
                    } else {
                        assert(w[k] == v[k] && perm[k] == q[k]);
                    }
                }
                assert forall|a: int, b: int| 0 <= a < b < n implies #[trigger] perm[a]
                    != #[trigger] perm[b] by {
                    let a0 = if a < p { a } else if a == p { i as int } else if a <= i { a - 1 } else { a };
                    let b0 = if b < p { b } else if b == p { i as int } else if b <= i { b - 1 } else { b };
                    assert(perm[a] == q[a0] && perm[b] == q[b0]);
                    assert(a0 != b0);
                    if a0 < b0 {
                        assert(q[a0] != q[b0]);
                    } else {
                        assert(q[b0] != q[a0]);
                    }
                }
                assert forall|k: int| 0 <= k < i + 1 implies #[trigger] perm[k] < i + 1 by {
                    if k < p {
                        assert(perm[k] == q[k]);
                    } else if k == p {
                        assert(perm[k] == q[i as int]);
                    } else {
                        assert(perm[k] == q[k - 1]);
                    }
                }
                if all_alike(rows, keys) {
                    assert forall|a: int, b: int| 0 <= a < b < i + 1 implies in_order(
                        #[trigger] w[a]@,
                        #[trigger] w[b]@,
                        perm[a],
                        perm[b],
                        keys,
                        descending,
                    ) by {
                        let x = v[i as int];
                        if b == p {
                            // `a` stands before the place of the moved row.
                            assert(w[a] == v[a] && perm[a] == q[a]);
                            assert(perm[b] == q[i as int] && q[i as int] == i);
                            assert(q[a] < i);
                            if p > 0 {
                                assert(!row_before(x@, v[p - 1]@, keys, descending));
                                if a < p - 1 {
                                    assert(in_order(
                                        v[a]@,
                                        v[p - 1]@,
                                        q[a],
                                        q[p - 1],
                                        keys,
                                        descending,
                                    ));
                                    assert(v[a] == start[q[a]]);
                                    assert(v[p - 1] == start[q[p - 1]]);
                                    assert(x == start[q[i as int]]);
                                    assert(alike(rows[q[a]], rows[q[p - 1]], keys));
                                    assert(alike(rows[q[p - 1]], rows[q[i as int]], keys));
                                    lemma_row_order_transitive(
                                        v[a]@,
                                        v[p - 1]@,
                                        x@,
                                        keys,
                                        descending,
                                    );
                                }
                            }
                        } else if a == p {
                            // `b` stood behind the place and has moved up by one.
                            assert(w[b] == v[b - 1] && perm[b] == q[b - 1]);
                            assert(row_before(x@, v[b - 1]@, keys, descending));
                            lemma_row_before_asymmetric(x@, v[b - 1]@, keys, descending);
                        } else {
                            let a0 = if a < p { a } else { a - 1 };
                            let b0 = if b < p { b } else { b - 1 };
                            assert(w[a] == v[a0] && perm[a] == q[a0]);
                            assert(w[b] == v[b0] && perm[b] == q[b0]);
                            assert(in_order(v[a0]@, v[b0]@, q[a0], q[b0], keys, descending));
                        }
                    }
                }
            }
            i += 1;
        }
        assert(registers.deep_view().take(n as int) =~= registers.deep_view());
        assert(rows.take(n as int) =~= rows);
        assert(is_stable_sort(rows, registers.deep_view(), perm, keys, descending));
    }
}

} // verus!
