//! The statement `DELETE`.
use vstd::prelude::*;
use crate::condition::ConditionView;
use crate::errors::SqlError;
use crate::register::Register;
use crate::select_sql::{build_where, optional_where};
use crate::table::{
    complete, completed, convert_line_to_register, header_of, line_row, read_header, Table,
};
use crate::utils::{borrow_range, is_delete, is_from, is_where, token_is};
use crate::where_sql::Where;

verus! {

/// A `DELETE`: the table, and perhaps a filter. The rows on which the
/// filter holds are the ones that go; without a filter no row goes.
#[derive(Debug, PartialEq)]
pub struct Delete {
    pub table_name: String,
    pub where_clause: Option<Where>,
}

/// What a `Delete` holds, as texts and trees.
pub ghost struct DeleteView {
    pub table_name: Seq<char>,
    pub where_clause: Option<ConditionView>,
}

impl View for Delete {
    type V = DeleteView;

    open spec fn view(&self) -> DeleteView {
        DeleteView {
            table_name: self.table_name@,
            where_clause: match self.where_clause {
                Some(w) => Some(w@),
                None => None,
            },
        }
    }
}

impl DeleteView {
    /// What the statement makes of one line of a table with the columns
    /// `header`: the row without any column where the filter holds of the
    /// line's row, and else the line's row on all of `header`.
    pub open spec fn spec_execute(self, line: Seq<char>, header: Seq<Seq<char>>) -> Result<
        Map<Seq<char>, Seq<char>>,
        SqlError,
    > {
        let row = line_row(line, header);
        match self.where_clause {
            None => Ok(completed(row, header)),
            Some(condition) => match condition.eval(row) {
                Err(e) => Err(e),
                Ok(true) => Ok(Map::empty()),
                Ok(false) => Ok(completed(row, header)),
            },
        }
    }

    /// The rows that stay among the lines of `lines` before `n`, the header
    /// apart, in the order of the lines. The first line that fails ends it
    /// with its failure.
    pub open spec fn surviving(self, lines: Seq<Seq<char>>, n: int) -> Result<
        Seq<Map<Seq<char>, Seq<char>>>,
        SqlError,
    >
        decreases n,
    {
        if n <= 1 {
            Ok(Seq::empty())
        } else {
            match self.surviving(lines, n - 1) {
                Err(e) => Err(e),
                Ok(rows) => match self.spec_execute(lines[n - 1], header_of(lines)) {
                    Err(e) => Err(e),
                    Ok(row) => Ok(
                        if row == Map::<Seq<char>, Seq<char>>::empty() {
                            rows
                        } else {
                            rows.push(row)
                        },
                    ),
                },
            }
        }
    }
}

impl Delete {
    /// The statement that `tokens` write: `DELETE`, `FROM`, the table, and
    /// from a `WHERE` behind the table on the filter.
    pub open spec fn spec_new(tokens: Seq<Seq<char>>) -> Result<DeleteView, SqlError> {
        if tokens.len() >= 3 && tokens[0] == "DELETE"@ && tokens[1] == "FROM"@ {
            let where_tokens = if token_is(tokens, 3, "WHERE"@) {
                tokens.subrange(3, tokens.len() as int)
            } else {
                Seq::empty()
            };
            match optional_where(where_tokens) {
                Err(e) => Err(e),
                Ok(where_clause) => Ok(DeleteView { table_name: tokens[2], where_clause }),
            }
        } else {
            Err(SqlError::InvalidSyntax)
        }
    }

    /// Builds the statement that `tokens` write.
    ///
    /// Fails with `InvalidSyntax` on fewer than three tokens or when they do
    /// not begin with `DELETE` and `FROM`; then as the filter fails to be
    /// built.
    pub fn new_from_tokens(tokens: Vec<String>) -> (r: Result<Self, SqlError>)
        ensures
            match r {
                Ok(delete) => Self::spec_new(tokens.deep_view()) == Ok::<DeleteView, SqlError>(
                    delete@,
                ) && (delete@.where_clause is Some ==> delete@.where_clause->0.well_formed()),
                Err(e) => Self::spec_new(tokens.deep_view()) == Err::<DeleteView, SqlError>(e),
            },
    {
        let ghost toks = tokens.deep_view();
        if tokens.len() < 3 {
            return Err(SqlError::InvalidSyntax);
        }
        assert(toks[0] == tokens@[0]@);
        assert(toks[1] == tokens@[1]@);
        assert(toks[2] == tokens@[2]@);
        if !is_delete(tokens[0].as_str()) || !is_from(tokens[1].as_str()) {
            return Err(SqlError::InvalidSyntax);
        }
        let mut from = tokens.len();
        if tokens.len() > 3 {
            assert(toks[3] == tokens@[3]@);
            if is_where(tokens[3].as_str()) {
                from = 3;
            }
        }
        let where_tokens = borrow_range(&tokens, from, tokens.len());
        assert(from == tokens.len() ==> where_tokens.deep_view() =~= Seq::<Seq<char>>::empty());
        let where_clause = build_where(where_tokens)?;
        Ok(Delete { table_name: tokens[2].clone(), where_clause })
    }

    /// Makes of one line of a table with the columns `columns` the row that
    /// the statement leaves of it: the row without any column where the
    /// filter holds of the line's row, and else the line's row on all of
    /// `columns`.
    ///
    /// Fails with `Error` when the filter cannot be decided on the row.
    pub fn execute(&self, line: String, columns: &Vec<String>) -> (r: Result<Register, SqlError>)
        ensures
            match r {
                Ok(row) => self@.spec_execute(line@, columns.deep_view()) == Ok::<
                    Map<Seq<char>, Seq<char>>,
                    SqlError,
                >(row@),
                Err(e) => self@.spec_execute(line@, columns.deep_view()) == Err::<
                    Map<Seq<char>, Seq<char>>,
                    SqlError,
                >(e),
            },
    {
        let register = convert_line_to_register(line.as_str(), columns);
        let matched = match &self.where_clause {
            Some(where_clause) => where_clause.execute(&register)?,
            None => false,
        };
        if matched {
            Ok(Register::new())
        } else {
            Ok(complete(&register, columns))
        }
    }

    /// Carries the statement out on the lines of a table, the first of
    /// which is the header. The table that results has the columns of the
    /// header and the rows that stay, in their order.
    ///
    /// Fails with `Error` at the first row on which the filter cannot be
    /// decided.
    pub fn apply_to_table(&self, lines: Vec<String>) -> (r: Result<Table, SqlError>)
        ensures
            match r {
                Ok(table) => table@.columns == header_of(lines.deep_view()) && self@.surviving(
                    lines.deep_view(),
                    lines.len() as int,
                ) == Ok::<Seq<Map<Seq<char>, Seq<char>>>, SqlError>(table@.rows),
                Err(e) => self@.surviving(lines.deep_view(), lines.len() as int) == Err::<
                    Seq<Map<Seq<char>, Seq<char>>>,
                    SqlError,
                >(e),
            },
    {
        let ghost ls = lines.deep_view();
        let columns = read_header(&lines);
        let mut registers: Vec<Register> = Vec::new();
        let mut i: usize = 1;
        assert(registers.deep_view() =~= Seq::<Map<Seq<char>, Seq<char>>>::empty());
        while i < lines.len()
            invariant
                ls == lines.deep_view(),
                columns.deep_view() == header_of(ls),
                1 <= i,
                i <= lines.len() || (lines.len() == 0 && i == 1),
                self@.surviving(ls, i as int) == Ok::<Seq<Map<Seq<char>, Seq<char>>>, SqlError>(
                    registers.deep_view(),
                ),
            decreases lines.len() - i,
        {
            assert(ls[i as int] == lines@[i as int]@);
            match self.execute(lines[i].clone(), &columns) {
                Ok(register) => {
                    if !register.is_empty() {
                        let ghost before = registers.deep_view();
                        registers.push(register);
                        assert(registers.deep_view() =~= before.push(register@));
                    }
                },
                Err(e) => {
                    proof {
                        lemma_delete_stays_failed(self@, ls, i + 1, lines.len() as int);
                    }
                    return Err(e);
                },
            }
            i += 1;
        }
        Ok(Table { columns, registers })
    }
}

/// A deletion that has failed at some line fails in the same way on all
/// the lines.
pub proof fn lemma_delete_stays_failed(delete: DeleteView, lines: Seq<Seq<char>>, m: int, n: int)
    requires
        m <= n,
        delete.surviving(lines, m) is Err,
    ensures
        delete.surviving(lines, n) == delete.surviving(lines, m),
    decreases n - m,
{
    if m < n {
        lemma_delete_stays_failed(delete, lines, m, n - 1);
    }
}

} // verus!
