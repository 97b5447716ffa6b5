//! A table in memory: the names of its columns and its rows.
use vstd::prelude::*;
use crate::errors::SqlError;
use crate::register::{has_columns, row_values, Register};
use crate::text::{
    comma_free, join_commas, join_text, lemma_split_join, split_commas, split_text,
};

verus! {

/// A table: the names of its columns, in the order of the header, and its
/// rows, in the order in which they are stored.
pub struct Table {
    pub columns: Vec<String>,
    pub registers: Vec<Register>,
}

/// What a `Table` holds, as texts.
pub ghost struct TableView {
    pub columns: Seq<Seq<char>>,
    pub rows: Seq<Map<Seq<char>, Seq<char>>>,
}

impl View for Table {
    type V = TableView;

    open spec fn view(&self) -> TableView {
        TableView { columns: self.columns.deep_view(), rows: self.registers.deep_view() }
    }
}

impl Table {
    /// A table without columns and without rows.
    pub fn new() -> (table: Self)
        ensures
            table@.columns.len() == 0,
            table@.rows.len() == 0,
    {
        Self { columns: Vec::new(), registers: Vec::new() }
    }
}

/// The row that gives the first `n` of `columns` the values at the same
/// positions of `values`, a later column of the same name winning.
pub open spec fn paired(columns: Seq<Seq<char>>, values: Seq<Seq<char>>, n: int) -> Map<
    Seq<char>,
    Seq<char>,
>
    decreases n,
{
    if n <= 0 {
        Map::empty()
    } else {
        paired(columns, values, n - 1).insert(columns[n - 1], values[n - 1])
    }
}

/// The row that pairs `columns` with `values`, position by position, as far
/// as both go.
pub open spec fn row_of(columns: Seq<Seq<char>>, values: Seq<Seq<char>>) -> Map<
    Seq<char>,
    Seq<char>,
> {
    paired(
        columns,
        values,
        if columns.len() <= values.len() {
            columns.len() as int
        } else {
            values.len() as int
        },
    )
}

/// The row that a line of a table is, under the header `columns`.
pub open spec fn line_row(line: Seq<char>, columns: Seq<Seq<char>>) -> Map<Seq<char>, Seq<char>> {
    row_of(columns, split_text(line))
}

/// `row` on exactly the columns `columns`: a column that `row` lacks gets
/// the empty text.
pub open spec fn completed(row: Map<Seq<char>, Seq<char>>, columns: Seq<Seq<char>>) -> Map<
    Seq<char>,
    Seq<char>,
> {
    Map::new(
        |k: Seq<char>| columns.contains(k),
        |k: Seq<char>|
            if row.contains_key(k) {
                row[k]
            } else {
                Seq::empty()
            },
    )
}

/// `row` on those of `columns` that it has.
pub open spec fn projected(row: Map<Seq<char>, Seq<char>>, columns: Seq<Seq<char>>) -> Map<
    Seq<char>,
    Seq<char>,
> {
    Map::new(|k: Seq<char>| columns.contains(k) && row.contains_key(k), |k: Seq<char>| row[k])
}

/// The names of the columns of a table with the lines `lines`: the pieces
/// of its first line. A table without any line has no column.
pub open spec fn header_of(lines: Seq<Seq<char>>) -> Seq<Seq<char>> {
    if lines.len() == 0 {
        Seq::empty()
    } else {
        split_text(lines[0])
    }
}

/// What `take(i + 1)` holds is what `take(i)` holds and the element at `i`.
pub proof fn lemma_take_contains(s: Seq<Seq<char>>, i: int, k: Seq<char>)
    requires
        0 <= i < s.len(),
    ensures
        s.take(i + 1).contains(k) <==> s.take(i).contains(k) || s[i] == k,
{
    let longer = s.take(i + 1);
    let shorter = s.take(i);
    if longer.contains(k) {
        let j = choose|j: int| 0 <= j < longer.len() && #[trigger] longer[j] == k;
        if j < i {
            assert(shorter[j] == k);
        }
    }
    if shorter.contains(k) {
        let j = choose|j: int| 0 <= j < shorter.len() && #[trigger] shorter[j] == k;
        assert(longer[j] == k);
    }
    if s[i] == k {
        assert(longer[i] == k);
    }
}

/// Reads the names of the columns off the lines of a table.
pub fn read_header(lines: &Vec<String>) -> (columns: Vec<String>)
    ensures
        columns.deep_view() == header_of(lines.deep_view()),
{
    if lines.len() == 0 {
        let columns: Vec<String> = Vec::new();
        assert(columns.deep_view() =~= Seq::<Seq<char>>::empty());
        columns
    } else {
        assert(lines.deep_view()[0] == lines@[0]@);
        split_commas(lines[0].as_str())
    }
}

/// Reads a line of a table as a row: its pieces between commas are the
/// values of `columns`, position by position, as far as both go.
pub fn convert_line_to_register(line: &str, columns: &Vec<String>) -> (row: Register)
    ensures
        row@ == line_row(line@, columns.deep_view()),
{
    let values = split_commas(line);
    let mut row = Register::new();
    let mut i: usize = 0;
    while i < columns.len() && i < values.len()
        invariant
            i <= columns.len(),
            i <= values.len(),
            row@ == paired(columns.deep_view(), values.deep_view(), i as int),
        decreases columns.len() - i,
    {
        row.insert(columns[i].clone(), values[i].clone());
        i += 1;
    }
    row
}

/// Fills `row` up to exactly the columns `columns`: a column that `row`
/// lacks gets the empty text, a column outside `columns` is left out.
pub fn complete(row: &Register, columns: &Vec<String>) -> (full: Register)
    ensures
        full@ == completed(row@, columns.deep_view()),
{
    let ghost cols = columns.deep_view();
    let mut full = Register::new();
    let mut i: usize = 0;
    assert(full@ =~= completed(row@, cols.take(0)));
    while i < columns.len()
        invariant
            cols == columns.deep_view(),
            i <= columns.len(),
            full@ == completed(row@, cols.take(i as int)),
        decreases columns.len() - i,
    {
        let value = match row.get(columns[i].as_str()) {
            Some(v) => v.clone(),
            None => String::new(),
        };
        let ghost before = full@;
        full.insert(columns[i].clone(), value);
        proof {
            assert(cols[i as int] == columns@[i as int]@);
            let want = completed(row@, cols.take(i + 1));
            assert forall|k: Seq<char>| full@.contains_key(k) <==> want.contains_key(k) by {
                lemma_take_contains(cols, i as int, k);
            }
            assert forall|k: Seq<char>| full@.contains_key(k) implies full@[k] == want[k] by {
                lemma_take_contains(cols, i as int, k);
            }
            assert(full@ =~= want);
        }
        i += 1;
    }
    assert(cols.take(i as int) =~= cols);
    full
}

/// Cuts `row` down to those of `columns` that it has.
pub fn project(row: &Register, columns: &Vec<String>) -> (part: Register)
    ensures
        part@ == projected(row@, columns.deep_view()),
{
    let ghost cols = columns.deep_view();
    let mut part = Register::new();
    let mut i: usize = 0;
    assert(part@ =~= projected(row@, cols.take(0)));
    while i < columns.len()
        invariant
            cols == columns.deep_view(),
            i <= columns.len(),
            part@ == projected(row@, cols.take(i as int)),
        decreases columns.len() - i,
    {
        let ghost before = part@;
        match row.get(columns[i].as_str()) {
            Some(v) => {
                part.insert(columns[i].clone(), v.clone());
            },
            None => {},
        }
        proof {
            let want = projected(row@, cols.take(i + 1));
            assert(cols[i as int] == columns@[i as int]@);
            assert forall|k: Seq<char>| part@.contains_key(k) <==> want.contains_key(k) by {
                lemma_take_contains(cols, i as int, k);
            }
            assert forall|k: Seq<char>| part@.contains_key(k) implies part@[k] == want[k] by {
                lemma_take_contains(cols, i as int, k);
            }
            assert(part@ =~= want);
        }
        i += 1;
    }
    assert(cols.take(i as int) =~= cols);
    part
}

/// The lines that write a table with the rows `rows`: a header that names
/// `columns`, then each row's values in `columns`.
pub open spec fn csv_lines(columns: Seq<Seq<char>>, rows: Seq<Map<Seq<char>, Seq<char>>>) -> Seq<
    Seq<char>,
> {
    seq![join_text(columns)] + Seq::new(
        rows.len(),
        |i: int| join_text(row_values(rows[i], columns)),
    )
}

/// Whether each of `rows` has a value for each of `columns`.
pub open spec fn all_have_columns(
    rows: Seq<Map<Seq<char>, Seq<char>>>,
    columns: Seq<Seq<char>>,
) -> bool {
    forall|i: int| 0 <= i < rows.len() ==> has_columns(#[trigger] rows[i], columns)
}

/// Writes `table` as lines of text: a header that names `column_order`,
/// then one line for each row, with the row's values in those columns.
///
/// Fails with `Error` when a row lacks one of the columns.
pub fn table_to_csv(table: &Table, column_order: &Vec<String>) -> (r: Result<Vec<String>, SqlError>)
    ensures
        match r {
            Ok(lines) => all_have_columns(table@.rows, column_order.deep_view())
                && lines.deep_view() == csv_lines(column_order.deep_view(), table@.rows),
            Err(e) => e == SqlError::Error && !all_have_columns(
                table@.rows,
                column_order.deep_view(),
            ),
        },
{
    let ghost cols = column_order.deep_view();
    let ghost rows = table@.rows;
    let mut result: Vec<String> = Vec::new();
    result.push(join_commas(column_order));
    assert(result.deep_view() =~= csv_lines(cols, rows.take(0)));
    let mut i: usize = 0;
    while i < table.registers.len()
        invariant
            cols == column_order.deep_view(),
            rows == table@.rows,
            i <= table.registers.len(),
            all_have_columns(rows.take(i as int), cols),
            result.deep_view() == csv_lines(cols, rows.take(i as int)),
        decreases table.registers.len() - i,
    {
        assert(rows[i as int] == table.registers@[i as int]@);
        match table.registers[i].to_csv(column_order) {
            Ok(line) => {
                let ghost before = result.deep_view();
                result.push(line);
                assert(result.deep_view() =~= before.push(line@));
                assert(result.deep_view() =~= csv_lines(cols, rows.take(i + 1)));
            },
            Err(e) => {
                return Err(e);
            },
        }
        i += 1;
    }
    assert(rows.take(i as int) =~= rows);
    Ok(result)
}

/// Pairing the first `n` of `columns` with the values that `row` has in
/// them gives `row` on those columns.
pub proof fn lemma_paired_values(
    row: Map<Seq<char>, Seq<char>>,
    columns: Seq<Seq<char>>,
    n: int,
)
    requires
        0 <= n <= columns.len(),
        has_columns(row, columns),
    ensures
        paired(columns, row_values(row, columns), n) == projected(row, columns.take(n)),
    decreases n,
{
    let values = row_values(row, columns);
    if n == 0 {
        assert(paired(columns, values, n) =~= projected(row, columns.take(n)));
    } else {
        lemma_paired_values(row, columns, n - 1);
        let want = projected(row, columns.take(n));
        let got = paired(columns, values, n);
        assert forall|k: Seq<char>| got.contains_key(k) <==> want.contains_key(k) by {
            lemma_take_contains(columns, n - 1, k);
        }
        assert forall|k: Seq<char>| got.contains_key(k) implies got[k] == want[k] by {
            lemma_take_contains(columns, n - 1, k);
        }
        assert(got =~= want);
    }
}

/// Whether `row` has no column but those of `columns`.
pub open spec fn within_columns(row: Map<Seq<char>, Seq<char>>, columns: Seq<Seq<char>>) -> bool {
    forall|k: Seq<char>| row.contains_key(k) ==> columns.contains(k)
}

/// Writing a row as a line and reading the line again gives the row back,
/// on the columns of the table: where there is at least one column, the
/// row has them all, and none of its values in them holds a comma. A row
/// that has no other column comes back whole.
pub proof fn lemma_row_round_trip(row: Map<Seq<char>, Seq<char>>, columns: Seq<Seq<char>>)
    requires
        columns.len() >= 1,
        has_columns(row, columns),
        forall|i: int| 0 <= i < columns.len() ==> comma_free(row[#[trigger] columns[i]]),
    ensures
        split_text(join_text(row_values(row, columns))) == row_values(row, columns),
        line_row(join_text(row_values(row, columns)), columns) == projected(row, columns),
        within_columns(row, columns) ==> line_row(join_text(row_values(row, columns)), columns)
            == row,
{
    if within_columns(row, columns) {
        assert(projected(row, columns) =~= row);
    }
    let values = row_values(row, columns);
    assert forall|i: int| 0 <= i < values.len() implies comma_free(#[trigger] values[i]) by {
        assert(values[i] == row[columns[i]]);
    }
    lemma_split_join(values);
    lemma_paired_values(row, columns, columns.len() as int);
    assert(columns.take(columns.len() as int) =~= columns);
}

/// Writing a table as lines and reading the lines again gives the table
/// back: the header gives the columns, and each further line gives its row
/// on those columns, which is the whole row where the row has no other
/// column. This holds where there is at least one column, no column's name
/// and no value holds a comma, and each row has all the columns.
pub proof fn lemma_table_round_trip(
    columns: Seq<Seq<char>>,
    rows: Seq<Map<Seq<char>, Seq<char>>>,
)
    requires
        columns.len() >= 1,
        forall|i: int| 0 <= i < columns.len() ==> comma_free(#[trigger] columns[i]),
        all_have_columns(rows, columns),
        forall|r: int, i: int|
            0 <= r < rows.len() && 0 <= i < columns.len() ==> comma_free(
                (#[trigger] rows[r])[#[trigger] columns[i]],
            ),
    ensures
        csv_lines(columns, rows).len() == rows.len() + 1,
        header_of(csv_lines(columns, rows)) == columns,
        forall|r: int|
            0 <= r < rows.len() ==> line_row(
                #[trigger] csv_lines(columns, rows)[r + 1],
                header_of(csv_lines(columns, rows)),
            ) == projected(rows[r], columns),
        forall|r: int|
            0 <= r < rows.len() && within_columns(rows[r], columns) ==> line_row(
                #[trigger] csv_lines(columns, rows)[r + 1],
                header_of(csv_lines(columns, rows)),
            ) == rows[r],
{
    let lines = csv_lines(columns, rows);
    lemma_split_join(columns);
    assert(lines[0] == join_text(columns));
    assert forall|r: int| 0 <= r < rows.len() implies line_row(
        #[trigger] lines[r + 1],
        header_of(lines),
    ) == projected(rows[r], columns) by {
        assert(lines[r + 1] == join_text(row_values(rows[r], columns)));
        assert(has_columns(rows[r], columns));
        lemma_row_round_trip(rows[r], columns);
    }
    assert forall|r: int| 0 <= r < rows.len() && within_columns(rows[r], columns) implies line_row(
        #[trigger] lines[r + 1],
        header_of(lines),
    ) == rows[r] by {
        assert(lines[r + 1] == join_text(row_values(rows[r], columns)));
        assert(has_columns(rows[r], columns));
        lemma_row_round_trip(rows[r], columns);
    }
}

} // verus!
