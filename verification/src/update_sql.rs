//! The statement `UPDATE`.
use vstd::prelude::*;
use crate::condition::ConditionView;
use crate::errors::SqlError;
use crate::register::Register;
use crate::select_sql::{build_where, optional_where};
use crate::set_sql::SetClause;
use crate::table::{
    convert_line_to_register, header_of, line_row, paired, read_header, Table,
};
use crate::text::{lemma_split_not_empty, split_text};
use crate::utils::{borrow_range, find_word, first_word, is_update};
use crate::where_sql::Where;

verus! {

/// An `UPDATE`: the table, the assignments, and perhaps a filter that
/// chooses the rows to which they apply.
#[derive(Debug, PartialEq)]
pub struct Update {
    pub table_name: String,
    pub where_clause: Option<Where>,
    pub set_clause: SetClause,
}

/// What an `Update` holds, as texts and trees.
pub ghost struct UpdateView {
    pub table_name: Seq<char>,
    pub where_clause: Option<ConditionView>,
    pub set_clause: Seq<(Seq<char>, Seq<char>)>,
}

impl View for Update {
    type V = UpdateView;

    open spec fn view(&self) -> UpdateView {
        UpdateView {
            table_name: self.table_name@,
            where_clause: match self.where_clause {
                Some(w) => Some(w@),
                None => None,
            },
            set_clause: self.set_clause@,
        }
    }
}

/// `row` after the assignments `sets`, made one after the other: a later
/// assignment to the same column wins.
pub open spec fn assigned(row: Map<Seq<char>, Seq<char>>, sets: Seq<(Seq<char>, Seq<char>)>) -> Map<
    Seq<char>,
    Seq<char>,
>
    decreases sets.len(),
{
    if sets.len() == 0 {
        row
    } else {
        assigned(row, sets.drop_last()).insert(sets.last().0, sets.last().1)
    }
}

impl UpdateView {
    /// What the statement makes of one line of a table with the columns
    /// `header`: the line's row after the assignments where there is no
    /// filter or the filter lets the row pass, and the row as it is where
    /// the filter holds it back.
    pub open spec fn spec_execute(self, line: Seq<char>, header: Seq<Seq<char>>) -> Result<
        Map<Seq<char>, Seq<char>>,
        SqlError,
    > {
        let row = line_row(line, header);
        match self.where_clause {
            None => Ok(assigned(row, self.set_clause)),
            Some(condition) => match condition.eval(row) {
                Err(e) => Err(e),
                Ok(true) => Ok(assigned(row, self.set_clause)),
                Ok(false) => Ok(row),
            },
        }
    }

    /// The rows that the statement makes of the lines of `lines` before
    /// `n`, the header apart, in the order of the lines; a row without any
    /// column is left out. The first line that fails ends it with its
    /// failure.
    pub open spec fn updated(self, lines: Seq<Seq<char>>, n: int) -> Result<
        Seq<Map<Seq<char>, Seq<char>>>,
        SqlError,
    >
        decreases n,
    {
        if n <= 1 {
            Ok(Seq::empty())
        } else {
            match self.updated(lines, n - 1) {
                Err(e) => Err(e),
                Ok(rows) => match self.spec_execute(lines[n - 1], header_of(lines)) {
                    Err(e) => Err(e),
                    Ok(row) => Ok(
                        if row == Map::<Seq<char>, Seq<char>>::empty() {
                            rows
                        } else {
                            rows.push(row)
                        },
                    ),
                },
            }
        }
    }
}

impl Update {
    /// The statement that `tokens` write: `UPDATE`, the table, the
    /// assignments up to the word `WHERE`, and from that word on the filter.
    pub open spec fn spec_new(tokens: Seq<Seq<char>>) -> Result<UpdateView, SqlError> {
        if tokens.len() >= 3 && tokens[0] == "UPDATE"@ {
            let w = first_word(tokens, 2, "WHERE"@);
            match optional_where(tokens.subrange(w, tokens.len() as int)) {
                Err(e) => Err(e),
                Ok(where_clause) => match SetClause::spec_new(tokens.subrange(2, w)) {
                    Err(e) => Err(e),
                    Ok(set_clause) => Ok(
                        UpdateView { table_name: tokens[1], where_clause, set_clause },
                    ),
                },
            }
        } else {
            Err(SqlError::InvalidSyntax)
        }
    }

    /// Builds the statement that `tokens` write.
    ///
    /// Fails with `InvalidSyntax` on fewer than three tokens or when the
    /// first is not `UPDATE`; then as the filter fails to be built; then
    /// with `InvalidSyntax` when the assignments do not begin with `SET` or
    /// hold no `=`.
    pub fn new_from_tokens(tokens: Vec<String>) -> (r: Result<Self, SqlError>)
        ensures
            match r {
                Ok(update) => Self::spec_new(tokens.deep_view()) == Ok::<UpdateView, SqlError>(
                    update@,
                ) && (update@.where_clause is Some ==> update@.where_clause->0.well_formed()),
                Err(e) => Self::spec_new(tokens.deep_view()) == Err::<UpdateView, SqlError>(e),
            },
    {
        if tokens.len() < 3 {
            return Err(SqlError::InvalidSyntax);
        }
        assert(tokens.deep_view()[0] == tokens@[0]@);
        assert(tokens.deep_view()[1] == tokens@[1]@);
        if !is_update(tokens[0].as_str()) {
            return Err(SqlError::InvalidSyntax);
        }
        let w = find_word(&tokens, 2, "WHERE");
        let where_clause = build_where(borrow_range(&tokens, w, tokens.len()))?;
        let set_clause = SetClause::new_from_tokens(borrow_range(&tokens, 2, w))?;
        Ok(Update { table_name: tokens[1].clone(), where_clause, set_clause })
    }

    /// Makes the assignments on `row`, one after the other.
    pub fn assign(&self, row: &mut Register)
        ensures
            final(row)@ == assigned(old(row)@, self@.set_clause),
    {
        let ghost sets = self@.set_clause;
        let ghost start = row@;
        let mut i: usize = 0;
        assert(sets.take(0) =~= Seq::<(Seq<char>, Seq<char>)>::empty());
        while i < self.set_clause.0.len()
            invariant
                sets == self.set_clause.0.deep_view(),
                i <= self.set_clause.0.len(),
                row@ == assigned(start, sets.take(i as int)),
            decreases self.set_clause.0.len() - i,
        {
            let column = self.set_clause.0[i].0.clone();
            let value = self.set_clause.0[i].1.clone();
            proof {
                assert(sets.take(i + 1).drop_last() =~= sets.take(i as int));
                assert(sets.take(i + 1).last() == sets[i as int]);
                assert(sets[i as int] == (column@, value@));
            }
            row.insert(column, value);
            i += 1;
        }
        assert(sets.take(i as int) =~= sets);
    }

    /// Makes of one line of a table with the columns `columns` the row that
    /// the statement leaves of it: the line's row after the assignments
    /// where there is no filter or the filter lets the row pass, and the
    /// row as it is where the filter holds it back.
    ///
    /// Fails with `Error` when the filter cannot be decided on the row.
    pub fn execute(&self, line: String, columns: &Vec<String>) -> (r: Result<Register, SqlError>)
        ensures
            match r {
                Ok(row) => self@.spec_execute(line@, columns.deep_view()) == Ok::<
                    Map<Seq<char>, Seq<char>>,
                    SqlError,
                >(row@),
                Err(e) => self@.spec_execute(line@, columns.deep_view()) == Err::<
                    Map<Seq<char>, Seq<char>>,
                    SqlError,
                >(e),
            },
    {
        let mut register = convert_line_to_register(line.as_str(), columns);
        let matched = match &self.where_clause {
            Some(where_clause) => where_clause.execute(&register)?,
            None => true,
        };
        if matched {
            self.assign(&mut register);
        }
        Ok(register)
    }

    /// Carries the statement out on the lines of a table, the first of
    /// which is the header. The table that results has the columns of the
    /// header and a row for each further line, changed or not.
    ///
    /// Fails with `Error` at the first row on which the filter cannot be
    /// decided.
    pub fn apply_to_table(&self, lines: Vec<String>) -> (r: Result<Table, SqlError>)
        ensures
            match r {
                Ok(table) => table@.columns == header_of(lines.deep_view()) && self@.updated(
                    lines.deep_view(),
                    lines.len() as int,
                ) == Ok::<Seq<Map<Seq<char>, Seq<char>>>, SqlError>(table@.rows),
                Err(e) => self@.updated(lines.deep_view(), lines.len() as int) == Err::<
                    Seq<Map<Seq<char>, Seq<char>>>,
                    SqlError,
                >(e),
            },
    {
        let ghost ls = lines.deep_view();
        let columns = read_header(&lines);
        let mut registers: Vec<Register> = Vec::new();
        let mut i: usize = 1;
        assert(registers.deep_view() =~= Seq::<Map<Seq<char>, Seq<char>>>::empty());
        while i < lines.len()
            invariant
                ls == lines.deep_view(),
                columns.deep_view() == header_of(ls),
                1 <= i,
                i <= lines.len() || (lines.len() == 0 && i == 1),
                self@.updated(ls, i as int) == Ok::<Seq<Map<Seq<char>, Seq<char>>>, SqlError>(
                    registers.deep_view(),
                ),
            decreases lines.len() - i,
        {
            assert(ls[i as int] == lines@[i as int]@);
            match self.execute(lines[i].clone(), &columns) {
                Ok(register) => {
                    if !register.is_empty() {
                        let ghost before = registers.deep_view();
                        registers.push(register);
                        assert(registers.deep_view() =~= before.push(register@));
                    }
                },
                Err(e) => {
                    proof {
                        lemma_update_stays_failed(self@, ls, i + 1, lines.len() as int);
                    }
                    return Err(e);
                },
            }
            i += 1;
        }
        Ok(Table { columns, registers })
    }
}

/// An update that has failed at some line fails in the same way on all the
/// lines.
pub proof fn lemma_update_stays_failed(update: UpdateView, lines: Seq<Seq<char>>, m: int, n: int)
    requires
        m <= n,
        update.updated(lines, m) is Err,
    ensures
        update.updated(lines, n) == update.updated(lines, m),
    decreases n - m,
{
    if m < n {
        lemma_update_stays_failed(update, lines, m, n - 1);
    }
}

/// Assignments keep every column that the row has.
pub proof fn lemma_assigned_keeps_columns(
    row: Map<Seq<char>, Seq<char>>,
    sets: Seq<(Seq<char>, Seq<char>)>,
    k: Seq<char>,
)
    requires
        row.contains_key(k),
    ensures
        assigned(row, sets).contains_key(k),
    decreases sets.len(),
{
    if sets.len() > 0 {
        lemma_assigned_keeps_columns(row, sets.drop_last(), k);
    }
}

/// After the assignments each assigned column holds the value of the last
/// assignment to it.
pub proof fn lemma_assigned_last_wins(
    row: Map<Seq<char>, Seq<char>>,
    sets: Seq<(Seq<char>, Seq<char>)>,
    i: int,
)
    requires
        0 <= i < sets.len(),
        forall|j: int| i < j < sets.len() ==> (#[trigger] sets[j]).0 != sets[i].0,
    ensures
        assigned(row, sets).contains_key(sets[i].0),
        assigned(row, sets)[sets[i].0] == sets[i].1,
    decreases sets.len(),
{
    if i < sets.len() - 1 {
        let front = sets.drop_last();
        assert forall|j: int| i < j < front.len() implies (#[trigger] front[j]).0
            != front[i].0 by {
            assert(front[j] == sets[j]);
        }
        lemma_assigned_last_wins(row, front, i);
        assert(sets.last() == sets[sets.len() - 1]);
    }
}

/// An update without a filter makes its assignments on every row: the
/// table that results has one row for each line behind the header, and
/// that row is the line's row after the assignments.
pub proof fn lemma_update_without_filter(update: UpdateView, lines: Seq<Seq<char>>, n: int)
    requires
        update.where_clause is None,
        1 <= n <= lines.len(),
    ensures
        update.updated(lines, n) is Ok,
        update.updated(lines, n)->Ok_0.len() == n - 1,
        forall|i: int|
            0 <= i < n - 1 ==> (#[trigger] update.updated(lines, n)->Ok_0[i]) == assigned(
                line_row(lines[i + 1], header_of(lines)),
                update.set_clause,
            ),
    decreases n,
{
    if n > 1 {
        lemma_update_without_filter(update, lines, n - 1);
        let header = header_of(lines);
        let values = split_text(lines[n - 1]);
        lemma_split_not_empty(lines[0]);
        lemma_split_not_empty(lines[n - 1]);
        let row = line_row(lines[n - 1], header);
        let m = if header.len() <= values.len() {
            header.len() as int
        } else {
            values.len() as int
        };
        assert(row == paired(header, values, m));
        assert(row.contains_key(header[m - 1]));
        lemma_assigned_keeps_columns(row, update.set_clause, header[m - 1]);
        assert(assigned(row, update.set_clause) != Map::<Seq<char>, Seq<char>>::empty());
    }
}

} // verus!
