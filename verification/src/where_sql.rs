//! The filter of a statement.
use vstd::prelude::*;
use crate::condition::{Condition, ConditionView};
use crate::errors::SqlError;
use crate::recursive_parser::{parse_condition, spec_parse_condition};
use crate::register::Register;
use crate::utils::is_where;

verus! {

/// The filter of a statement: one condition.
#[derive(Debug, PartialEq)]
pub struct Where {
    pub condition: Condition,
}

impl View for Where {
    type V = ConditionView;

    open spec fn view(&self) -> ConditionView {
        self.condition@
    }
}

impl Where {
    /// The condition that `tokens` write: the word `WHERE`, then a
    /// condition. Tokens behind the condition are not looked at.
    pub open spec fn spec_new(tokens: Seq<Seq<char>>) -> Result<ConditionView, SqlError> {
        if tokens.len() == 0 {
            Err(SqlError::InvalidSyntax)
        } else if tokens[0] != "WHERE"@ {
            Err(SqlError::Error)
        } else {
            match spec_parse_condition(tokens, 1) {
                Ok((condition, _)) => Ok(condition),
                Err(e) => Err(e),
            }
        }
    }

    /// Builds the filter that `tokens` write.
    ///
    /// Fails with `InvalidSyntax` on no tokens at all, with `Error` when the
    /// first token is not `WHERE`, and as the parser of conditions fails.
    pub fn new_from_tokens(tokens: Vec<&str>) -> (r: Result<Self, SqlError>)
        ensures
            match r {
                Ok(w) => Self::spec_new(tokens.deep_view()) == Ok::<ConditionView, SqlError>(w@)
                    && w@.well_formed(),
                Err(e) => Self::spec_new(tokens.deep_view()) == Err::<ConditionView, SqlError>(e),
            },
    {
        if tokens.len() == 0 {
            return Err(SqlError::InvalidSyntax);
        }
        if !is_where(tokens[0]) {
            return Err(SqlError::Error);
        }
        let (condition, _) = parse_condition(&tokens, 1)?;
        Ok(Where { condition })
    }

    /// Whether `register` passes the filter.
    pub fn execute(&self, register: &Register) -> (r: Result<bool, SqlError>)
        ensures
            r == self@.eval(register@),
    {
        self.condition.execute(register)
    }
}

} // verus!
