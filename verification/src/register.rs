//! One row of a table: the value of each column, found by the column's name.
use vstd::prelude::*;
use vstd::hash_map::StringHashMap;
use crate::errors::SqlError;
use crate::text::{join_commas, join_text};

verus! {

/// One row of a table. It is read as the map from each column name it holds
/// to the value in that column.
pub struct Register(pub StringHashMap<String>);

impl View for Register {
    type V = Map<Seq<char>, Seq<char>>;

    open spec fn view(&self) -> Map<Seq<char>, Seq<char>> {
        Map::new(|k: Seq<char>| self.0@.contains_key(k), |k: Seq<char>| self.0@[k]@)
    }
}

impl DeepView for Register {
    type V = Map<Seq<char>, Seq<char>>;

    open spec fn deep_view(&self) -> Map<Seq<char>, Seq<char>> {
        self@
    }
}

/// Whether `row` has a value for each of `columns`.
pub open spec fn has_columns(row: Map<Seq<char>, Seq<char>>, columns: Seq<Seq<char>>) -> bool {
    forall|i: int| 0 <= i < columns.len() ==> row.contains_key(#[trigger] columns[i])
}

/// The values that `row` has in `columns`, in the order of `columns`.
pub open spec fn row_values(row: Map<Seq<char>, Seq<char>>, columns: Seq<Seq<char>>) -> Seq<
    Seq<char>,
> {
    Seq::new(columns.len(), |i: int| row[columns[i]])
}

impl Register {
    /// A row without any column.
    pub fn new() -> (row: Self)
        ensures
            row@ == Map::<Seq<char>, Seq<char>>::empty(),
    {
        let row = Register(StringHashMap::new());
        assert(row@ =~= Map::<Seq<char>, Seq<char>>::empty());
        row
    }

    /// Gives `column` the value `value`, whether or not it had one.
    pub fn insert(&mut self, column: String, value: String)
        ensures
            final(self)@ == old(self)@.insert(column@, value@),
    {
        self.0.insert(column, value);
        assert(self@ =~= old(self)@.insert(column@, value@));
    }

    /// The value in `column`, if the row has that column.
    pub fn get(&self, column: &str) -> (value: Option<&String>)
        ensures
            value is Some <==> self@.contains_key(column@),
            value is Some ==> value->0@ == self@[column@],
    {
        self.0.get(column)
    }

    /// Whether the row has no column at all.
    pub fn is_empty(&self) -> (empty: bool)
        ensures
            empty == (self@ == Map::<Seq<char>, Seq<char>>::empty()),
    {
        let empty = self.0.is_empty();
        proof {
            if empty {
                assert(self@ =~= Map::<Seq<char>, Seq<char>>::empty());
            } else {
                let k = choose|k: Seq<char>| self.0@.contains_key(k);
                assert(self@.contains_key(k));
            }
        }
        empty
    }

    /// The row as one line of text: its values in `columns`, in that order,
    /// with commas between them. Fails when the row lacks one of the columns.
    pub fn to_csv(&self, columns: &Vec<String>) -> (line: Result<String, SqlError>)
        ensures
            match line {
                Ok(text) => has_columns(self@, columns.deep_view()) && text@ == join_text(
                    row_values(self@, columns.deep_view()),
                ),
                Err(e) => e == SqlError::Error && !has_columns(self@, columns.deep_view()),
            },
    {
        let mut values: Vec<String> = Vec::new();
        let mut i: usize = 0;
        while i < columns.len()
            invariant
                i <= columns.len(),
                has_columns(self@, columns.deep_view().take(i as int)),
                values.deep_view() == row_values(self@, columns.deep_view().take(i as int)),
            decreases columns.len() - i,
        {
            match self.get(columns[i].as_str()) {
                Some(value) => {
                    let ghost before = values.deep_view();
                    values.push(value.clone());
                    assert(values.deep_view() =~= before.push(value@));
                    assert(values.deep_view() =~= row_values(
                        self@,
                        columns.deep_view().take(i + 1),
                    ));
                },
                None => {
                    assert(columns.deep_view()[i as int] == columns@[i as int]@);
                    return Err(SqlError::Error);
                },
            }
            i += 1;
        }
        assert(columns.deep_view().take(i as int) =~= columns.deep_view());
        Ok(join_commas(&values))
    }
}

} // verus!
