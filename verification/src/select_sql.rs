//! The statement `SELECT`.
use vstd::prelude::*;
use crate::condition::ConditionView;
use crate::errors::SqlError;
use crate::orderby_sql::{
    is_permutation, is_stable_sort, permuted, sorted_rows, OrderBy, OrderByView,
};
use crate::register::{has_columns, Register};
use crate::table::{
    all_have_columns, complete, completed, convert_line_to_register, header_of, line_row, project,
    projected, read_header, Table, TableView,
};
use crate::text::same_text;
use crate::utils::{borrow_range, find_word, first_word, is_order, is_select, is_where, token_is};
use crate::where_sql::Where;

verus! {

/// A `SELECT`: the table, the columns to show, and perhaps a filter and an
/// ordering. A first column `*` stands for all columns of the table.
#[derive(Debug, PartialEq)]
pub struct Select {
    pub table_name: String,
    pub columns: Vec<String>,
    pub where_clause: Option<Where>,
    pub orderby_clause: Option<OrderBy>,
}

/// What a `Select` holds, as texts and trees.
pub ghost struct SelectView {
    pub table_name: Seq<char>,
    pub columns: Seq<Seq<char>>,
    pub where_clause: Option<ConditionView>,
    pub orderby_clause: Option<OrderByView>,
}

impl View for Select {
    type V = SelectView;

    open spec fn view(&self) -> SelectView {
        SelectView {
            table_name: self.table_name@,
            columns: self.columns.deep_view(),
            where_clause: match self.where_clause {
                Some(w) => Some(w@),
                None => None,
            },
            orderby_clause: match self.orderby_clause {
                Some(o) => Some(o@),
                None => None,
            },
        }
    }
}

/// The filter that `tokens` write, if they are any.
pub open spec fn optional_where(tokens: Seq<Seq<char>>) -> Result<Option<ConditionView>, SqlError> {
    if tokens.len() == 0 {
        Ok(None)
    } else {
        match Where::spec_new(tokens) {
            Ok(condition) => Ok(Some(condition)),
            Err(e) => Err(e),
        }
    }
}

/// The ordering that `tokens` write, if they are any.
pub open spec fn optional_orderby(tokens: Seq<Seq<char>>) -> Result<Option<OrderByView>, SqlError> {
    if tokens.len() == 0 {
        Ok(None)
    } else {
        match OrderBy::spec_new(tokens) {
            Ok(ordering) => Ok(Some(ordering)),
            Err(e) => Err(e),
        }
    }
}

/// Builds the filter that `tokens` write, if they are any.
pub fn build_where(tokens: Vec<&str>) -> (r: Result<Option<Where>, SqlError>)
    ensures
        match r {
            Ok(Some(w)) => optional_where(tokens.deep_view()) == Ok::<
                Option<ConditionView>,
                SqlError,
            >(Some(w@)) && w@.well_formed(),
            Ok(None) => optional_where(tokens.deep_view()) == Ok::<Option<ConditionView>, SqlError>(
                None,
            ),
            Err(e) => optional_where(tokens.deep_view()) == Err::<Option<ConditionView>, SqlError>(
                e,
            ),
        },
{
    if tokens.len() == 0 {
        Ok(None)
    } else {
        Ok(Some(Where::new_from_tokens(tokens)?))
    }
}

/// Builds the ordering that `tokens` write, if they are any.
pub fn build_orderby(tokens: Vec<&str>) -> (r: Result<Option<OrderBy>, SqlError>)
    ensures
        match r {
            Ok(Some(o)) => optional_orderby(tokens.deep_view()) == Ok::<
                Option<OrderByView>,
                SqlError,
            >(Some(o@)),
            Ok(None) => optional_orderby(tokens.deep_view()) == Ok::<Option<OrderByView>, SqlError>(
                None,
            ),
            Err(e) => optional_orderby(tokens.deep_view()) == Err::<Option<OrderByView>, SqlError>(
                e,
            ),
        },
{
    if tokens.len() == 0 {
        Ok(None)
    } else {
        Ok(Some(OrderBy::new_from_tokens(tokens)?))
    }
}

/// Where the filter of a statement ends whose tokens may hold one from
/// `from` on: at the first `ORDER` behind a `WHERE` that stands at `from`,
/// and at `from` itself where no `WHERE` stands there.
pub open spec fn where_end(tokens: Seq<Seq<char>>, from: int) -> int {
    if token_is(tokens, from, "WHERE"@) {
        first_word(tokens, from, "ORDER"@)
    } else {
        from
    }
}

/// The tokens of the ordering of a statement whose filter ends at `from`:
/// all from an `ORDER` at `from` on, and none where no `ORDER` stands
/// there.
pub open spec fn orderby_tokens(tokens: Seq<Seq<char>>, from: int) -> Seq<Seq<char>> {
    if token_is(tokens, from, "ORDER"@) {
        tokens.subrange(from, tokens.len() as int)
    } else {
        Seq::empty()
    }
}

/// Cuts the tokens of a `SELECT` from `from` on into those of its filter
/// and those of its ordering.
fn parse_where_and_orderby<'a>(tokens: &'a Vec<String>, from: usize) -> (r: (
    Vec<&'a str>,
    Vec<&'a str>,
))
    requires
        from <= tokens.len(),
    ensures
        r.0.deep_view() == tokens.deep_view().subrange(
            from as int,
            where_end(tokens.deep_view(), from as int),
        ),
        r.1.deep_view() == orderby_tokens(
            tokens.deep_view(),
            where_end(tokens.deep_view(), from as int),
        ),
{
    let ghost toks = tokens.deep_view();
    let mut end = from;
    if from < tokens.len() {
        assert(toks[from as int] == tokens@[from as int]@);
        if is_where(tokens[from].as_str()) {
            end = find_word(tokens, from, "ORDER");
        }
    }
    let where_tokens = borrow_range(tokens, from, end);
    let mut order_tokens: Vec<&'a str> = Vec::new();
    assert(order_tokens.deep_view() =~= Seq::<Seq<char>>::empty());
    if end < tokens.len() {
        assert(toks[end as int] == tokens@[end as int]@);
        if is_order(tokens[end].as_str()) {
            order_tokens = borrow_range(tokens, end, tokens.len());
        }
    }
    (where_tokens, order_tokens)
}

impl SelectView {
    /// Whether the statement shows all columns of the table.
    pub open spec fn names_all(self) -> bool {
        self.columns.len() > 0 && self.columns[0] == "*"@
    }

    /// Whether a table with the columns `header` has every column that the
    /// statement shows.
    pub open spec fn knows(self, header: Seq<Seq<char>>) -> bool {
        self.names_all() || forall|i: int|
            0 <= i < self.columns.len() ==> header.contains(#[trigger] self.columns[i])
    }

    /// The columns that the statement shows of a table with the columns
    /// `header`.
    pub open spec fn shown(self, header: Seq<Seq<char>>) -> Seq<Seq<char>> {
        if self.names_all() {
            header
        } else {
            self.columns
        }
    }

    /// What the statement makes of one line of a table with the columns
    /// `header`: the line's row on all of `header` where the filter lets it
    /// pass, and the row without any column where it does not.
    pub open spec fn spec_execute(self, line: Seq<char>, header: Seq<Seq<char>>) -> Result<
        Map<Seq<char>, Seq<char>>,
        SqlError,
    > {
        if !self.knows(header) {
            Err(SqlError::InvalidColumn)
        } else {
            let row = line_row(line, header);
            match self.where_clause {
                None => Ok(completed(row, header)),
                Some(condition) => match condition.eval(row) {
                    Err(e) => Err(e),
                    Ok(true) => Ok(completed(row, header)),
                    Ok(false) => Ok(Map::empty()),
                },
            }
        }
    }

    /// The rows that pass the filter among the lines of `lines` before
    /// `n`, the header apart, in the order of the lines. The first line that
    /// fails ends the scan with its failure; a table that lacks a column of
    /// the statement fails before any line is looked at.
    pub open spec fn scanned(self, lines: Seq<Seq<char>>, n: int) -> Result<
        Seq<Map<Seq<char>, Seq<char>>>,
        SqlError,
    >
        decreases n,
    {
        if n <= 1 {
            if self.knows(header_of(lines)) {
                Ok(Seq::empty())
            } else {
                Err(SqlError::InvalidColumn)
            }
        } else {
            match self.scanned(lines, n - 1) {
                Err(e) => Err(e),
                Ok(rows) => match self.spec_execute(lines[n - 1], header_of(lines)) {
                    Err(e) => Err(e),
                    Ok(row) => Ok(
                        if row == Map::<Seq<char>, Seq<char>>::empty() {
                            rows
                        } else {
                            rows.push(row)
                        },
                    ),
                },
            }
        }
    }

    /// Whether `table` is what the statement shows of the rows `kept`, which
    /// passed the filter, of a table with the columns `header`, row `i` of
    /// `table` being made of row `perm[i]` of `kept`.
    ///
    /// Without an ordering the rows stand as in `kept`; with one they are
    /// `kept` put in order, which is a stable ordering. Each row is cut down
    /// to the columns that the statement shows.
    pub open spec fn shows(
        self,
        header: Seq<Seq<char>>,
        kept: Seq<Map<Seq<char>, Seq<char>>>,
        perm: Seq<int>,
        table: TableView,
    ) -> bool {
        &&& table.columns == header
        &&& table.rows.len() == kept.len()
        &&& is_permutation(perm, kept.len() as int)
        &&& forall|i: int|
            0 <= i < kept.len() ==> #[trigger] table.rows[i] == projected(
                kept[perm[i]],
                self.shown(header),
            )
        &&& match self.orderby_clause {
            None => forall|i: int| 0 <= i < kept.len() ==> #[trigger] perm[i] == i,
            Some(ordering) => {
                &&& permuted(kept, perm) == sorted_rows(
                    kept,
                    ordering.columns,
                    ordering.descending(),
                )
                &&& is_stable_sort(
                    kept,
                    permuted(kept, perm),
                    perm,
                    ordering.columns,
                    ordering.descending(),
                )
            },
        }
    }
}

impl SelectView {
    /// Whether `outcome` is what the statement makes of a table with the
    /// lines `lines`: the failure of the scan where the scan fails, and
    /// else a table that shows the rows that the scan kept.
    pub open spec fn selects(self, lines: Seq<Seq<char>>, outcome: Result<TableView, SqlError>) -> bool {
        match self.scanned(lines, lines.len() as int) {
            Err(e) => outcome == Err::<TableView, SqlError>(e),
            Ok(kept) => outcome is Ok && exists|perm: Seq<int>|
                self.shows(header_of(lines), kept, perm, outcome->Ok_0),
        }
    }
}

impl Select {
    /// The statement that `tokens` write: `SELECT`, the columns up to the
    /// word `FROM`, the table, then perhaps a filter, which reaches up to
    /// the word `ORDER`, and perhaps an ordering.
    pub open spec fn spec_new(tokens: Seq<Seq<char>>) -> Result<SelectView, SqlError> {
        let f = first_word(tokens, 1, "FROM"@);
        if tokens.len() >= 4 && tokens[0] == "SELECT"@ && 1 < f && f + 1 < tokens.len() && tokens[f
            + 1].len() > 0 {
            let end = where_end(tokens, f + 2);
            match optional_where(tokens.subrange(f + 2, end)) {
                Err(e) => Err(e),
                Ok(where_clause) => match optional_orderby(orderby_tokens(tokens, end)) {
                    Err(e) => Err(e),
                    Ok(orderby_clause) => Ok(
                        SelectView {
                            table_name: tokens[f + 1],
                            columns: tokens.subrange(1, f),
                            where_clause,
                            orderby_clause,
                        },
                    ),
                },
            }
        } else {
            Err(SqlError::InvalidSyntax)
        }
    }

    /// Builds the statement that `tokens` write.
    ///
    /// Fails with `InvalidSyntax` on fewer than four tokens, when the first
    /// is not `SELECT`, when no column stands before `FROM`, when `FROM` or
    /// the table's name is missing or the name is empty; and as the filter
    /// and the ordering fail to be built, the filter first.
    pub fn new_from_tokens(tokens: Vec<String>) -> (r: Result<Self, SqlError>)
        ensures
            match r {
                Ok(select) => Self::spec_new(tokens.deep_view()) == Ok::<SelectView, SqlError>(
                    select@,
                ) && (select@.where_clause is Some ==> select@.where_clause->0.well_formed()),
                Err(e) => Self::spec_new(tokens.deep_view()) == Err::<SelectView, SqlError>(e),
            },
    {
        let ghost toks = tokens.deep_view();
        if tokens.len() < 4 {
            return Err(SqlError::InvalidSyntax);
        }
        assert(toks[0] == tokens@[0]@);
        if !is_select(tokens[0].as_str()) {
            return Err(SqlError::InvalidSyntax);
        }
        let f = find_word(&tokens, 1, "FROM");
        if f <= 1 {
            return Err(SqlError::InvalidSyntax);
        }
        let columns = parse_columns(&tokens, f);
        let table_name = parse_table_name(&tokens, f)?;
        let (where_tokens, order_tokens) = parse_where_and_orderby(&tokens, f + 2);
        let where_clause = build_where(where_tokens)?;
        let orderby_clause = build_orderby(order_tokens)?;
        Ok(Select { table_name, columns, where_clause, orderby_clause })
    }

    /// Whether the first column that the statement shows is `*`.
    pub fn names_all(&self) -> (r: bool)
        ensures
            r == self@.names_all(),
    {
        if self.columns.len() > 0 {
            assert(self@.columns[0] == self.columns@[0]@);
            same_text(self.columns[0].as_str(), "*")
        } else {
            false
        }
    }

    /// Whether a table with the columns `header` has every column that the
    /// statement shows.
    pub fn knows(&self, header: &Vec<String>) -> (r: bool)
        ensures
            r == self@.knows(header.deep_view()),
    {
        if self.names_all() {
            return true;
        }
        let ghost hs = header.deep_view();
        let ghost cs = self@.columns;
        let mut i: usize = 0;
        while i < self.columns.len()
            invariant
                hs == header.deep_view(),
                cs == self.columns.deep_view(),
                i <= self.columns.len(),
                !self@.names_all(),
                forall|k: int| 0 <= k < i ==> hs.contains(#[trigger] cs[k]),
            decreases self.columns.len() - i,
        {
            assert(cs[i as int] == self.columns@[i as int]@);
            let at = find_word(header, 0, self.columns[i].as_str());
            proof {
                crate::utils::lemma_first_word(hs, 0, cs[i as int]);
            }
            if at >= header.len() {
                assert(!hs.contains(cs[i as int]));
                return false;
            }
            assert(hs[at as int] == cs[i as int]);
            i += 1;
        }
        true
    }

    /// Cuts each of `registers` down to the columns that the statement
    /// shows of a table with the columns `columns`.
    pub fn filter_columns(&self, columns: &Vec<String>, registers: Vec<Register>) -> (out: Vec<
        Register,
    >)
        ensures
            out.len() == registers.len(),
            forall|i: int|
                0 <= i < out.len() ==> #[trigger] out.deep_view()[i] == projected(
                    registers.deep_view()[i],
                    self@.shown(columns.deep_view()),
                ),
    {
        let all = self.names_all();
        let mut out: Vec<Register> = Vec::new();
        let mut i: usize = 0;
        while i < registers.len()
            invariant
                all == self@.names_all(),
                i <= registers.len(),
                out.len() == i,
                forall|k: int|
                    0 <= k < i ==> #[trigger] out@[k]@ == projected(
                        registers@[k]@,
                        self@.shown(columns.deep_view()),
                    ),
            decreases registers.len() - i,
        {
            let part = if all {
                project(&registers[i], columns)
            } else {
                project(&registers[i], &self.columns)
            };
            out.push(part);
            i += 1;
        }
        out
    }

    /// Makes of one line of a table with the columns `columns` the row that
    /// the statement keeps of it: the line's row on all of `columns` where
    /// the filter lets it pass or there is no filter, and the row without
    /// any column where the filter holds it back.
    ///
    /// Fails with `InvalidColumn` when the table lacks a column that the
    /// statement shows, and with `Error` when the filter cannot be decided
    /// on the row.
    pub fn execute(&self, line: String, columns: &Vec<String>) -> (r: Result<Register, SqlError>)
        ensures
            match r {
                Ok(row) => self@.spec_execute(line@, columns.deep_view()) == Ok::<
                    Map<Seq<char>, Seq<char>>,
                    SqlError,
                >(row@),
                Err(e) => self@.spec_execute(line@, columns.deep_view()) == Err::<
                    Map<Seq<char>, Seq<char>>,
                    SqlError,
                >(e),
            },
    {
        if !self.knows(columns) {
            return Err(SqlError::InvalidColumn);
        }
        let row = convert_line_to_register(line.as_str(), columns);
        match &self.where_clause {
            Some(where_clause) => {
                if where_clause.execute(&row)? {
                    Ok(complete(&row, columns))
                } else {
                    Ok(Register::new())
                }
            },
            None => Ok(complete(&row, columns)),
        }
    }

    /// Carries the statement out on the lines of a table, the first of
    /// which is the header: keeps the rows that pass the filter, puts them
    /// in order where the statement has an ordering, and cuts each down to
    /// the columns that the statement shows. The table that results has the
    /// columns of the header.
    ///
    /// Fails with `InvalidColumn` when the table lacks a column that the
    /// statement shows, before any row is looked at, and with `Error` at the
    /// first row on which the filter cannot be decided.
    pub fn apply_to_table(&self, lines: Vec<String>) -> (r: Result<Table, SqlError>)
        ensures
            self@.selects(
                lines.deep_view(),
                match r {
                    Ok(table) => Ok(table@),
                    Err(e) => Err(e),
                },
            ),
    {
        let ghost ls = lines.deep_view();
        let columns = read_header(&lines);
        if !self.knows(&columns) {
            proof {
                lemma_scan_fails_at_once(self@, ls, lines.len() as int);
            }
            return Err(SqlError::InvalidColumn);
        }
        let mut registers: Vec<Register> = Vec::new();
        let mut i: usize = 1;
        assert(registers.deep_view() =~= Seq::<Map<Seq<char>, Seq<char>>>::empty());
        while i < lines.len()
            invariant
                ls == lines.deep_view(),
                columns.deep_view() == header_of(ls),
                1 <= i,
                i <= lines.len() || (lines.len() == 0 && i == 1),
                self@.scanned(ls, i as int) == Ok::<Seq<Map<Seq<char>, Seq<char>>>, SqlError>(
                    registers.deep_view(),
                ),
            decreases lines.len() - i,
        {
            assert(ls[i as int] == lines@[i as int]@);
            match self.execute(lines[i].clone(), &columns) {
                Ok(register) => {
                    if !register.is_empty() {
                        let ghost before = registers.deep_view();
                        registers.push(register);
                        assert(registers.deep_view() =~= before.push(register@));
                    }
                },
                Err(e) => {
                    proof {
                        lemma_scan_stays_failed(self@, ls, i + 1, lines.len() as int);
                    }
                    return Err(e);
                },
            }
            i += 1;
        }
        let ghost kept = registers.deep_view();
        assert(self@.scanned(ls, lines.len() as int) == Ok::<
            Seq<Map<Seq<char>, Seq<char>>>,
            SqlError,
        >(kept));
        let ghost mut perm: Seq<int> = Seq::new(kept.len(), |i: int| i);
        match &self.orderby_clause {
            Some(orderby) => {
                orderby.execute(&mut registers);
                proof {
                    perm = choose|perm: Seq<int>|
                        is_stable_sort(
                            kept,
                            registers.deep_view(),
                            perm,
                            orderby@.columns,
                            orderby@.descending(),
                        );
                    assert(registers.deep_view() =~= permuted(kept, perm));
                }
            },
            None => {},
        }
        let ghost sorted = registers.deep_view();
        assert(forall|i: int| 0 <= i < kept.len() ==> #[trigger] sorted[i] == kept[perm[i]]);
        let shown = self.filter_columns(&columns, registers);
        let table = Table { columns, registers: shown };
        proof {
            assert(table@.rows.len() == kept.len());
            assert forall|i: int| 0 <= i < kept.len() implies #[trigger] table@.rows[i]
                == projected(kept[perm[i]], self@.shown(header_of(ls))) by {
                assert(table@.rows[i] == shown.deep_view()[i]);
                assert(sorted[i] == kept[perm[i]]);
            }
            assert(self@.shows(header_of(ls), kept, perm, table@));
            // The same, in the terms in which `selects` asks for it.
            let found = self@.scanned(ls, ls.len() as int);
            let outcome = Ok::<TableView, SqlError>(table@);
            assert(found->Ok_0 == kept);
            assert(self@.shows(header_of(ls), found->Ok_0, perm, outcome->Ok_0));
        }
        Ok(table)
    }
}

/// The table of a `SELECT` whose `FROM` would stand at `f`: the token behind
/// it. Fails with `InvalidSyntax` when `f` is the end of the tokens, when no
/// token follows, and when the one that follows is empty.
fn parse_table_name(tokens: &Vec<String>, f: usize) -> (r: Result<String, SqlError>)
    requires
        f <= tokens.len(),
    ensures
        match r {
            Ok(name) => f + 1 < tokens.len() && name@ == tokens.deep_view()[f + 1] && name@.len()
                > 0,
            Err(e) => e == SqlError::InvalidSyntax && !(f + 1 < tokens.len()
                && tokens.deep_view()[f + 1].len() > 0),
        },
{
    if f >= tokens.len() || f + 1 >= tokens.len() {
        return Err(SqlError::InvalidSyntax);
    }
    assert(tokens.deep_view()[f + 1] == tokens@[f + 1]@);
    if tokens[f + 1].as_str().is_empty() {
        return Err(SqlError::InvalidSyntax);
    }
    Ok(tokens[f + 1].clone())
}

/// The columns of a `SELECT` whose `FROM` stands at `f`: the tokens between
/// the first and that one.
fn parse_columns(tokens: &Vec<String>, f: usize) -> (columns: Vec<String>)
    requires
        1 <= f <= tokens.len(),
    ensures
        columns.deep_view() == tokens.deep_view().subrange(1, f as int),
{
    let mut columns: Vec<String> = Vec::new();
    let mut i: usize = 1;
    while i < f
        invariant
            1 <= i <= f <= tokens.len(),
            columns.deep_view() == tokens.deep_view().subrange(1, i as int),
        decreases f - i,
    {
        let ghost before = columns.deep_view();
        columns.push(tokens[i].clone());
        assert(columns.deep_view() =~= before.push(tokens@[i as int]@));
        assert(columns.deep_view() =~= tokens.deep_view().subrange(1, i + 1));
        i += 1;
    }
    columns
}

/// A scan of a table that lacks a column of the statement fails with
/// `InvalidColumn`, however many lines it has.
pub proof fn lemma_scan_fails_at_once(select: SelectView, lines: Seq<Seq<char>>, n: int)
    requires
        !select.knows(header_of(lines)),
    ensures
        select.scanned(lines, n) == Err::<Seq<Map<Seq<char>, Seq<char>>>, SqlError>(
            SqlError::InvalidColumn,
        ),
    decreases n,
{
    if n > 1 {
        lemma_scan_fails_at_once(select, lines, n - 1);
    }
}

/// A scan that has failed at some line fails in the same way on all the
/// lines.
pub proof fn lemma_scan_stays_failed(select: SelectView, lines: Seq<Seq<char>>, m: int, n: int)
    requires
        m <= n,
        select.scanned(lines, m) is Err,
    ensures
        select.scanned(lines, n) == select.scanned(lines, m),
    decreases n - m,
{
    if m < n {
        lemma_scan_stays_failed(select, lines, m, n - 1);
    }
}

/// A scan that succeeds was made on a table that has every column of the
/// statement, and each row that it kept has exactly the columns of the
/// header.
pub proof fn lemma_scanned_rows(select: SelectView, lines: Seq<Seq<char>>, n: int)
    requires
        select.scanned(lines, n) is Ok,
    ensures
        select.knows(header_of(lines)),
        forall|i: int, k: Seq<char>|
            0 <= i < select.scanned(lines, n)->Ok_0.len() ==> (
            #[trigger] select.scanned(lines, n)->Ok_0[i].contains_key(k) <==> header_of(
                lines,
            ).contains(k)),
    decreases n,
{
    if n > 1 {
        lemma_scanned_rows(select, lines, n - 1);
    }
}

/// The rows that a `SELECT` shows can be written in the columns that it
/// shows: each has them all.
pub proof fn lemma_shown_rows_have_columns(
    select: SelectView,
    lines: Seq<Seq<char>>,
    table: TableView,
)
    requires
        select.selects(lines, Ok(table)),
    ensures
        all_have_columns(table.rows, select.shown(table.columns)),
{
    let header = header_of(lines);
    let shown = select.shown(header);
    let kept = select.scanned(lines, lines.len() as int)->Ok_0;
    lemma_scanned_rows(select, lines, lines.len() as int);
    let perm = choose|perm: Seq<int>| select.shows(header, kept, perm, table);
    assert forall|i: int| 0 <= i < table.rows.len() implies has_columns(
        #[trigger] table.rows[i],
        shown,
    ) by {
        let row = kept[perm[i]];
        assert(table.rows[i] == projected(row, shown));
        assert forall|c: int| 0 <= c < shown.len() implies table.rows[i].contains_key(
            #[trigger] shown[c],
        ) by {
            assert(header.contains(shown[c]));
            assert(row.contains_key(shown[c]) <==> header.contains(shown[c]));
        }
    }
}

} // verus!
