//! The failures a query can end in.
use vstd::prelude::*;

verus! {

/// Why a query could not be carried out.
#[derive(Debug, Clone, Copy, PartialEq, Eq, Structural)]
pub enum SqlError {
    /// The table could not be found, opened or read.
    InvalidTable,
    /// The statement names a column that the table does not have.
    InvalidColumn,
    /// The tokens do not have the shape of a statement.
    InvalidSyntax,
    /// Any other failure: a lookup that found nothing, a read or a write
    /// that went wrong.
    Error,
}

impl SqlError {
    /// The text shown to the user for this failure.
    pub open spec fn spec_message(self) -> Seq<char> {
        match self {
            SqlError::InvalidTable => "[InvalidTable]: [Error to open or process table]"@,
            SqlError::InvalidColumn => "[InvalidColumn]: [Error to process column]"@,
            SqlError::InvalidSyntax => "[InvalidSyntax]: [Error to process query]"@,
            SqlError::Error => "[Error]: [Error]"@,
        }
    }

    /// The text shown to the user for this failure.
    pub fn message(&self) -> (text: String)
        ensures
            text@ == self.spec_message(),
    {
        match self {
            SqlError::InvalidTable => "[InvalidTable]: [Error to open or process table]".to_owned(),
            SqlError::InvalidColumn => "[InvalidColumn]: [Error to process column]".to_owned(),
            SqlError::InvalidSyntax => "[InvalidSyntax]: [Error to process query]".to_owned(),
            SqlError::Error => "[Error]: [Error]".to_owned(),
        }
    }
}

} // verus!
