//! A whole query: from its tokens to what is to be done with the table.
use vstd::prelude::*;
use crate::delete_sql::{Delete, DeleteView};
use crate::errors::SqlError;
use crate::insert_sql::{Insert, InsertView};
use crate::select_sql::{lemma_shown_rows_have_columns, Select, SelectView};
use crate::table::{all_have_columns, csv_lines, header_of, table_to_csv, TableView};
use crate::text::{join_text, split_text, trim_text};
use crate::update_sql::{Update, UpdateView};
use crate::utils::{is_delete, is_insert, is_select, is_update};

verus! {

/// A statement of one of the four kinds.
#[derive(Debug, PartialEq)]
pub enum Query {
    Select(Select),
    Insert(Insert),
    Update(Update),
    Delete(Delete),
}

/// What a `Query` holds, as texts and trees.
pub ghost enum QueryView {
    Select(SelectView),
    Insert(InsertView),
    Update(UpdateView),
    Delete(DeleteView),
}

impl View for Query {
    type V = QueryView;

    open spec fn view(&self) -> QueryView {
        match self {
            Query::Select(s) => QueryView::Select(s@),
            Query::Insert(i) => QueryView::Insert(i@),
            Query::Update(u) => QueryView::Update(u@),
            Query::Delete(d) => QueryView::Delete(d@),
        }
    }
}

/// What is to be done once a statement has been carried out on the lines of
/// its table.
#[derive(Debug, PartialEq)]
pub enum Outcome {
    /// These lines are the answer: a header and the rows found.
    Show(Vec<String>),
    /// This line is to be added at the end of the table.
    Append(String),
    /// These lines are to take the place of the whole table.
    Replace(Vec<String>),
}

/// What an `Outcome` holds, as texts.
pub ghost enum OutcomeView {
    Show(Seq<Seq<char>>),
    Append(Seq<char>),
    Replace(Seq<Seq<char>>),
}

impl View for Outcome {
    type V = OutcomeView;

    open spec fn view(&self) -> OutcomeView {
        match self {
            Outcome::Show(lines) => OutcomeView::Show(lines.deep_view()),
            Outcome::Append(line) => OutcomeView::Append(line@),
            Outcome::Replace(lines) => OutcomeView::Replace(lines.deep_view()),
        }
    }
}

/// The lines that write the rows `rows` in the columns `columns`, where each
/// row has them all.
pub open spec fn written(columns: Seq<Seq<char>>, rows: Seq<Map<Seq<char>, Seq<char>>>) -> Result<
    Seq<Seq<char>>,
    SqlError,
> {
    if all_have_columns(rows, columns) {
        Ok(csv_lines(columns, rows))
    } else {
        Err(SqlError::Error)
    }
}

/// The first of `lines`, and the empty text where there is none.
pub open spec fn first_line(lines: Seq<Seq<char>>) -> Seq<char> {
    if lines.len() == 0 {
        Seq::empty()
    } else {
        lines[0]
    }
}

impl QueryView {
    /// The table that the statement is about.
    pub open spec fn table_name(self) -> Seq<char> {
        match self {
            QueryView::Select(s) => s.table_name,
            QueryView::Insert(i) => i.into_clause.table_name,
            QueryView::Update(u) => u.table_name,
            QueryView::Delete(d) => d.table_name,
        }
    }

    /// Whether `outcome` is what carrying the statement out on a table with
    /// the lines `lines` comes to.
    ///
    /// A `SELECT` shows the rows it found, written in the columns it names.
    /// An `INSERT` adds one line: its values in the order of the header. An
    /// `UPDATE` and a `DELETE` replace the table by the rows they leave,
    /// written in the columns of the header. A failure of the statement is
    /// the failure of the whole. So is, for an `UPDATE` and a `DELETE`, a
    /// row that lacks a column of the header; the rows of a `SELECT` never
    /// lack a column in which they are written.
    pub open spec fn runs(
        self,
        lines: Seq<Seq<char>>,
        outcome: Result<OutcomeView, SqlError>,
    ) -> bool {
        match self {
            QueryView::Select(s) => match s.scanned(lines, lines.len() as int) {
                Err(e) => outcome == Err::<OutcomeView, SqlError>(e),
                Ok(_) => exists|table: TableView|
                    #![trigger s.selects(lines, Ok(table))]
                    s.selects(lines, Ok(table)) && outcome == Ok::<OutcomeView, SqlError>(
                        OutcomeView::Show(csv_lines(s.shown(table.columns), table.rows)),
                    ),
            },
            QueryView::Insert(i) => outcome == Ok::<OutcomeView, SqlError>(
                OutcomeView::Append(
                    join_text(i.reordered(split_text(trim_text(first_line(lines))))),
                ),
            ),
            QueryView::Update(u) => outcome == match u.updated(lines, lines.len() as int) {
                Err(e) => Err::<OutcomeView, SqlError>(e),
                Ok(rows) => match written(header_of(lines), rows) {
                    Ok(text) => Ok(OutcomeView::Replace(text)),
                    Err(e) => Err(e),
                },
            },
            QueryView::Delete(d) => outcome == match d.surviving(lines, lines.len() as int) {
                Err(e) => Err::<OutcomeView, SqlError>(e),
                Ok(rows) => match written(header_of(lines), rows) {
                    Ok(text) => Ok(OutcomeView::Replace(text)),
                    Err(e) => Err(e),
                },
            },
        }
    }
}

impl Query {
    /// The statement that `tokens` write, by its first word.
    pub open spec fn spec_new(tokens: Seq<Seq<char>>) -> Result<QueryView, SqlError> {
        if tokens.len() == 0 {
            Err(SqlError::InvalidSyntax)
        } else if tokens[0] == "SELECT"@ {
            match Select::spec_new(tokens) {
                Ok(s) => Ok(QueryView::Select(s)),
                Err(e) => Err(e),
            }
        } else if tokens[0] == "INSERT"@ {
            match Insert::spec_new(tokens) {
                Ok(i) => Ok(QueryView::Insert(i)),
                Err(e) => Err(e),
            }
        } else if tokens[0] == "DELETE"@ {
            match Delete::spec_new(tokens) {
                Ok(d) => Ok(QueryView::Delete(d)),
                Err(e) => Err(e),
            }
        } else if tokens[0] == "UPDATE"@ {
            match Update::spec_new(tokens) {
                Ok(u) => Ok(QueryView::Update(u)),
                Err(e) => Err(e),
            }
        } else {
            Err(SqlError::InvalidSyntax)
        }
    }

    /// Builds the statement that `tokens` write.
    ///
    /// Fails with `InvalidSyntax` on no tokens and on a first token that is
    /// none of `SELECT`, `INSERT`, `DELETE` and `UPDATE`, and as the
    /// statement of that kind fails to be built.
    pub fn new_from_tokens(tokens: Vec<String>) -> (r: Result<Self, SqlError>)
        ensures
            match r {
                Ok(query) => Self::spec_new(tokens.deep_view()) == Ok::<QueryView, SqlError>(
                    query@,
                ),
                Err(e) => Self::spec_new(tokens.deep_view()) == Err::<QueryView, SqlError>(e),
            },
    {
        if tokens.len() == 0 {
            return Err(SqlError::InvalidSyntax);
        }
        assert(tokens.deep_view()[0] == tokens@[0]@);
        if is_select(tokens[0].as_str()) {
            Ok(Query::Select(Select::new_from_tokens(tokens)?))
        } else if is_insert(tokens[0].as_str()) {
            Ok(Query::Insert(Insert::new_from_tokens(tokens)?))
        } else if is_delete(tokens[0].as_str()) {
            Ok(Query::Delete(Delete::new_from_tokens(tokens)?))
        } else if is_update(tokens[0].as_str()) {
            Ok(Query::Update(Update::new_from_tokens(tokens)?))
        } else {
            Err(SqlError::InvalidSyntax)
        }
    }

    /// The name of the table that the statement is about.
    pub fn table_name(&self) -> (name: &String)
        ensures
            name@ == self@.table_name(),
    {
        match self {
            Query::Select(s) => &s.table_name,
            Query::Insert(i) => &i.into_clause.table_name,
            Query::Update(u) => &u.table_name,
            Query::Delete(d) => &d.table_name,
        }
    }
}

/// Carries `query` out on the lines of its table, the first of which is the
/// header, and says what is to be done: lines to show, a line to add, or
/// lines to put in the place of the table.
pub fn exec_query(query: Query, lines: Vec<String>) -> (r: Result<Outcome, SqlError>)
    ensures
        query@.runs(
            lines.deep_view(),
            match r {
                Ok(outcome) => Ok(outcome@),
                Err(e) => Err(e),
            },
        ),
{
    let ghost ls = lines.deep_view();
    assert(ls.len() == lines.len());
    match query {
        Query::Select(clause) => {
            match clause.apply_to_table(lines) {
                Err(e) => {
                    assert(clause@.selects(ls, Err::<TableView, SqlError>(e)));
                    Err(e)
                },
                Ok(table) => {
                    assert(clause@.selects(ls, Ok::<TableView, SqlError>(table@)));
                    proof {
                        lemma_shown_rows_have_columns(clause@, ls, table@);
                    }
                    let text = if clause.names_all() {
                        table_to_csv(&table, &table.columns)
                    } else {
                        table_to_csv(&table, &clause.columns)
                    };
                    match text {
                        Ok(text) => Ok(Outcome::Show(text)),
                        Err(e) => Err(e),
                    }
                },
            }
        },
        Query::Insert(clause) => {
            let mut clause = clause;
            let line = if lines.len() > 0 {
                assert(ls[0] == lines@[0]@);
                clause.apply_to_table(lines[0].as_str())
            } else {
                proof {
                    reveal_strlit("");
                    assert(""@ =~= Seq::<char>::empty());
                }
                clause.apply_to_table("")
            };
            Ok(Outcome::Append(line))
        },
        Query::Update(clause) => {
            let table = clause.apply_to_table(lines)?;
            let text = table_to_csv(&table, &table.columns)?;
            Ok(Outcome::Replace(text))
        },
        Query::Delete(clause) => {
            let table = clause.apply_to_table(lines)?;
            let text = table_to_csv(&table, &table.columns)?;
            Ok(Outcome::Replace(text))
        },
    }
}

} // verus!
