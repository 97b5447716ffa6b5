//! The statement `INSERT`.
use vstd::prelude::*;
use crate::errors::SqlError;
use crate::into_sql::{items_of, list_items, Into, IntoView};
use crate::text::{join_commas, join_text, split_commas, split_text, trim, trim_text, unquote, unquote_text};
use crate::utils::{borrow_range, find_word, first_word, is_insert};

verus! {

/// An `INSERT`: the target, and the literal values for the columns that the
/// target names, position by position.
#[derive(Debug, PartialEq)]
pub struct Insert {
    pub values: Vec<String>,
    pub into_clause: Into,
}

/// What an `Insert` holds, as texts.
pub ghost struct InsertView {
    pub values: Seq<Seq<char>>,
    pub into_clause: IntoView,
}

impl View for Insert {
    type V = InsertView;

    open spec fn view(&self) -> InsertView {
        InsertView { values: self.values.deep_view(), into_clause: self.into_clause@ }
    }
}

/// The value that a statement with the columns `columns` and the values
/// `values` gives the column `name`: the value at the position where the
/// statement first names it, and the empty text where the statement does
/// not name it or has no value at that position.
pub open spec fn value_for(columns: Seq<Seq<char>>, values: Seq<Seq<char>>, name: Seq<char>) -> Seq<
    char,
> {
    let j = first_word(columns, 0, name);
    if j < columns.len() && j < values.len() {
        values[j]
    } else {
        Seq::empty()
    }
}

impl InsertView {
    /// The values of the new row in the order of `header`, one for each of
    /// its columns.
    pub open spec fn reordered(self, header: Seq<Seq<char>>) -> Seq<Seq<char>> {
        Seq::new(header.len(), |i: int| value_for(self.into_clause.columns, self.values, header[i]))
    }
}

impl Insert {
    /// The statement that `tokens` write: `INSERT`, the target up to the
    /// word `VALUES`, and behind that word the list of values as one token,
    /// from which quotes are taken out. Tokens behind the list are not
    /// looked at.
    pub open spec fn spec_new(tokens: Seq<Seq<char>>) -> Result<InsertView, SqlError> {
        let v = first_word(tokens, 1, "VALUES"@);
        if tokens.len() >= 6 && tokens[0] == "INSERT"@ && v + 1 < tokens.len() {
            match Into::spec_new(tokens.subrange(1, v)) {
                Ok(into_clause) => Ok(
                    InsertView { values: list_items(unquote_text(tokens[v + 1])), into_clause },
                ),
                Err(e) => Err(e),
            }
        } else {
            Err(SqlError::InvalidSyntax)
        }
    }

    /// Builds the statement that `tokens` write.
    ///
    /// Fails with `InvalidSyntax` on fewer than six tokens, when the first
    /// is not `INSERT`, when no `VALUES` follows or no token follows it, and
    /// when the tokens between `INSERT` and `VALUES` are no target.
    pub fn new_from_tokens(tokens: Vec<String>) -> (r: Result<Self, SqlError>)
        ensures
            match r {
                Ok(insert) => Self::spec_new(tokens.deep_view()) == Ok::<InsertView, SqlError>(
                    insert@,
                ),
                Err(e) => e == SqlError::InvalidSyntax && Self::spec_new(tokens.deep_view()) == Err::<
                    InsertView,
                    SqlError,
                >(e),
            },
    {
        if tokens.len() < 6 {
            return Err(SqlError::InvalidSyntax);
        }
        assert(tokens.deep_view()[0] == tokens@[0]@);
        if !is_insert(tokens[0].as_str()) {
            return Err(SqlError::InvalidSyntax);
        }
        let v = find_word(&tokens, 1, "VALUES");
        if v >= tokens.len() || v + 1 >= tokens.len() {
            return Err(SqlError::InvalidSyntax);
        }
        let into_tokens = borrow_range(&tokens, 1, v);
        let into_clause = Into::new_from_tokens(into_tokens)?;
        assert(tokens.deep_view()[v + 1] == tokens@[v + 1]@);
        let list = unquote(tokens[v + 1].as_str());
        let values = items_of(list.as_str());
        Ok(Insert { values, into_clause })
    }

    /// Puts the values in the order of the table's columns `columns`, one
    /// value for each: a column that the statement names gets the value at
    /// the position where the statement first names it, every other column
    /// the empty text. The statement's own columns become `columns`.
    pub fn reorder_values(&mut self, columns: Vec<String>)
        ensures
            final(self)@.values == old(self)@.reordered(columns.deep_view()),
            final(self)@.into_clause.columns == columns.deep_view(),
            final(self)@.into_clause.table_name == old(self)@.into_clause.table_name,
    {
        let ghost header = columns.deep_view();
        let ghost before = self@;
        let mut reordered: Vec<String> = Vec::new();
        let mut i: usize = 0;
        while i < columns.len()
            invariant
                header == columns.deep_view(),
                before == self@,
                i <= columns.len(),
                reordered.deep_view() == before.reordered(header.take(i as int)),
            decreases columns.len() - i,
        {
            let j = find_word(&self.into_clause.columns, 0, columns[i].as_str());
            let value = if j < self.into_clause.columns.len() && j < self.values.len() {
                self.values[j].clone()
            } else {
                String::new()
            };
            let ghost done = reordered.deep_view();
            reordered.push(value);
            proof {
                assert(header[i as int] == columns@[i as int]@);
                assert(reordered.deep_view() =~= done.push(value@));
                assert(reordered.deep_view() =~= before.reordered(header.take(i + 1)));
            }
            i += 1;
        }
        assert(header.take(i as int) =~= header);
        self.values = reordered;
        self.into_clause.columns = columns;
    }

    /// Makes the line that the statement adds to a table whose first line
    /// is `first_line`: the values in the order of the table's columns,
    /// with commas between them. White space around `first_line`, such as
    /// the line break at its end, does not count.
    pub fn apply_to_table(&mut self, first_line: &str) -> (line: String)
        ensures
            line@ == join_text(old(self)@.reordered(split_text(trim_text(first_line@)))),
            final(self)@.values == old(self)@.reordered(split_text(trim_text(first_line@))),
            final(self)@.into_clause.columns == split_text(trim_text(first_line@)),
            final(self)@.into_clause.table_name == old(self)@.into_clause.table_name,
    {
        let header = trim(first_line);
        let columns = split_commas(header.as_str());
        self.reorder_values(columns);
        join_commas(&self.values)
    }
}

} // verus!
