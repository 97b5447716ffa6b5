//! The target of an `INSERT`.
use vstd::prelude::*;
use crate::errors::SqlError;
use crate::text::{split_commas, split_text, trim, trim_text};
use crate::utils::is_into;

verus! {

/// The target of an `INSERT`: a table, and the columns that the statement
/// names, in the order in which it names them.
#[derive(Debug, PartialEq)]
pub struct Into {
    pub table_name: String,
    pub columns: Vec<String>,
}

/// What an `Into` holds, as texts.
pub ghost struct IntoView {
    pub table_name: Seq<char>,
    pub columns: Seq<Seq<char>>,
}

impl View for Into {
    type V = IntoView;

    open spec fn view(&self) -> IntoView {
        IntoView { table_name: self.table_name@, columns: self.columns.deep_view() }
    }
}

/// The pieces of `list` between its commas, each without the white space
/// around it.
pub open spec fn list_items(list: Seq<char>) -> Seq<Seq<char>> {
    split_text(list).map_values(|item: Seq<char>| trim_text(item))
}

/// Cuts `list` at its commas and trims each piece.
pub fn items_of(list: &str) -> (items: Vec<String>)
    ensures
        items.deep_view() == list_items(list@),
        items.len() >= 1,
{
    let pieces = split_commas(list);
    let mut items: Vec<String> = Vec::new();
    let mut i: usize = 0;
    while i < pieces.len()
        invariant
            i <= pieces.len(),
            pieces.deep_view() == split_text(list@),
            items.deep_view() == list_items(list@).take(i as int),
        decreases pieces.len() - i,
    {
        let item = trim(pieces[i].as_str());
        let ghost before = items.deep_view();
        items.push(item);
        assert(items.deep_view() =~= before.push(item@));
        assert(pieces.deep_view()[i as int] == pieces@[i as int]@);
        assert(items.deep_view() =~= list_items(list@).take(i + 1));
        i += 1;
    }
    assert(list_items(list@).take(i as int) =~= list_items(list@));
    items
}

impl Into {
    /// The target that `tokens` write: the word `INTO`, the table, and the
    /// list of columns as one token.
    pub open spec fn spec_new(tokens: Seq<Seq<char>>) -> Result<IntoView, SqlError> {
        if tokens.len() >= 3 && tokens[0] == "INTO"@ {
            Ok(IntoView { table_name: tokens[1], columns: list_items(tokens[2]) })
        } else {
            Err(SqlError::InvalidSyntax)
        }
    }

    /// Builds the target that `tokens` write.
    ///
    /// Fails with `InvalidSyntax` on fewer than three tokens, or when the
    /// first is not `INTO`.
    pub fn new_from_tokens(tokens: Vec<&str>) -> (r: Result<Self, SqlError>)
        ensures
            match r {
                Ok(into) => Self::spec_new(tokens.deep_view()) == Ok::<IntoView, SqlError>(into@),
                Err(e) => Self::spec_new(tokens.deep_view()) == Err::<IntoView, SqlError>(e),
            },
    {
        if tokens.len() < 3 || !is_into(tokens[0]) {
            return Err(SqlError::InvalidSyntax);
        }
        let table_name = tokens[1].to_owned();
        let columns = items_of(tokens[2]);
        Ok(Into { table_name, columns })
    }
}

} // verus!
