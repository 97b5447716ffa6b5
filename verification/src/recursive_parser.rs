//! The parser of conditions, by recursive descent.
//!
//! `OR` binds loosest, then `AND`, then `NOT`; a primary is a condition in
//! parentheses or one comparison. The operand of a `NOT` is a whole
//! condition, so a `NOT` takes in everything up to the end of the
//! expression or the parenthesis that closes it: `NOT a = 1 AND b = 2` is
//! the negation of `a = 1 AND b = 2`.
use vstd::prelude::*;
use crate::condition::{Condition, ConditionView, LogicalOperator, operator_of};
use crate::errors::SqlError;
use crate::utils::{is_and, is_left_paren, is_not, is_or, is_right_paren, token_is};

verus! {

/// How many tokens stand at `pos` and behind it.
pub open spec fn remaining(tokens: Seq<Seq<char>>, pos: int) -> int {
    if pos <= tokens.len() {
        tokens.len() - pos
    } else {
        0
    }
}

/// `left` and `right` under `operator`.
pub open spec fn join(left: ConditionView, operator: LogicalOperator, right: ConditionView)
    -> ConditionView {
    ConditionView::Complex { left: Some(Box::new(left)), operator, right: Box::new(right) }
}

/// The negation of `operand`.
pub open spec fn negate(operand: ConditionView) -> ConditionView {
    ConditionView::Complex {
        left: None,
        operator: LogicalOperator::Not,
        right: Box::new(operand),
    }
}

/// The condition that starts at `pos`, and the position behind it: one
/// term, then as many `OR` and term as follow.
///
/// In this and the other definitions of the grammar a step that does not
/// move forward is an error. The test makes the definitions well founded;
/// it never fails, as `lemma_grammar` shows.
pub open spec fn spec_parse_condition(tokens: Seq<Seq<char>>, pos: int) -> Result<
    (ConditionView, int),
    SqlError,
>
    decreases remaining(tokens, pos), 5int,
{
    match spec_parse_or(tokens, pos) {
        Err(e) => Err(e),
        Ok((left, next)) => if next > pos {
            or_chain(tokens, left, next)
        } else {
            Err(SqlError::Error)
        },
    }
}

/// `left` joined, from the left, with each term that an `OR` at `pos`
/// introduces.
pub open spec fn or_chain(tokens: Seq<Seq<char>>, left: ConditionView, pos: int) -> Result<
    (ConditionView, int),
    SqlError,
>
    decreases remaining(tokens, pos), 4int,
{
    if token_is(tokens, pos, "OR"@) {
        match spec_parse_or(tokens, pos + 1) {
            Err(e) => Err(e),
            Ok((right, next)) => if next > pos {
                or_chain(tokens, join(left, LogicalOperator::Or, right), next)
            } else {
                Err(SqlError::Error)
            },
        }
    } else {
        Ok((left, pos))
    }
}

/// The term that starts at `pos`: one factor, then as many `AND` and factor
/// as follow.
pub open spec fn spec_parse_or(tokens: Seq<Seq<char>>, pos: int) -> Result<
    (ConditionView, int),
    SqlError,
>
    decreases remaining(tokens, pos), 3int,
{
    match spec_parse_and(tokens, pos) {
        Err(e) => Err(e),
        Ok((left, next)) => if next > pos {
            and_chain(tokens, left, next)
        } else {
            Err(SqlError::Error)
        },
    }
}

/// `left` joined, from the left, with each factor that an `AND` at `pos`
/// introduces.
pub open spec fn and_chain(tokens: Seq<Seq<char>>, left: ConditionView, pos: int) -> Result<
    (ConditionView, int),
    SqlError,
>
    decreases remaining(tokens, pos), 2int,
{
    if token_is(tokens, pos, "AND"@) {
        match spec_parse_and(tokens, pos + 1) {
            Err(e) => Err(e),
            Ok((right, next)) => if next > pos {
                and_chain(tokens, join(left, LogicalOperator::And, right), next)
            } else {
                Err(SqlError::Error)
            },
        }
    } else {
        Ok((left, pos))
    }
}

/// The factor that starts at `pos`: `NOT` and a whole condition, or a
/// primary.
pub open spec fn spec_parse_and(tokens: Seq<Seq<char>>, pos: int) -> Result<
    (ConditionView, int),
    SqlError,
>
    decreases remaining(tokens, pos), 1int,
{
    if token_is(tokens, pos, "NOT"@) {
        match spec_parse_condition(tokens, pos + 1) {
            Err(e) => Err(e),
            Ok((operand, next)) => Ok((negate(operand), next)),
        }
    } else {
        spec_parse_base(tokens, pos)
    }
}

/// The primary that starts at `pos`: a condition between parentheses, or
/// the comparison that three tokens write.
pub open spec fn spec_parse_base(tokens: Seq<Seq<char>>, pos: int) -> Result<
    (ConditionView, int),
    SqlError,
>
    decreases remaining(tokens, pos), 0int,
{
    if !(0 <= pos < tokens.len()) {
        Err(SqlError::Error)
    } else if tokens[pos] == "("@ {
        match spec_parse_condition(tokens, pos + 1) {
            Err(e) => Err(e),
            Ok((inner, next)) => if token_is(tokens, next, ")"@) {
                Ok((inner, next + 1))
            } else {
                Err(SqlError::Error)
            },
        }
    } else {
        spec_simple(tokens, pos)
    }
}

/// The comparison that the three tokens at `pos` write.
pub open spec fn spec_simple(tokens: Seq<Seq<char>>, pos: int) -> Result<
    (ConditionView, int),
    SqlError,
> {
    if !(0 <= pos && pos + 3 <= tokens.len()) {
        Err(SqlError::Error)
    } else {
        match operator_of(tokens[pos + 1]) {
            Some(operator) => Ok(
                (
                    ConditionView::Simple {
                        field: tokens[pos],
                        operator,
                        value: tokens[pos + 2],
                    },
                    pos + 3,
                ),
            ),
            None => Err(SqlError::InvalidSyntax),
        }
    }
}

/// Whether `outcome`, where it is a success, ends behind `pos` and within
/// `tokens`, with a well-formed tree.
pub open spec fn advances(
    outcome: Result<(ConditionView, int), SqlError>,
    tokens: Seq<Seq<char>>,
    pos: int,
) -> bool {
    match outcome {
        Ok((tree, next)) => pos < next <= tokens.len() && tree.well_formed(),
        Err(_) => true,
    }
}

/// A condition that is parsed ends behind the position where it began, and
/// its tree is well formed.
pub proof fn lemma_parse_condition_advances(tokens: Seq<Seq<char>>, pos: int)
    ensures
        advances(spec_parse_condition(tokens, pos), tokens, pos),
    decreases remaining(tokens, pos), 5int,
{
    lemma_parse_or_advances(tokens, pos);
    match spec_parse_or(tokens, pos) {
        Ok((left, next)) => {
            lemma_or_chain_advances(tokens, left, next);
        },
        Err(_) => {},
    }
}

/// A chain of `OR` that goes on from `pos` ends at `pos` or behind it, and
/// its tree is well formed where `left` is.
pub proof fn lemma_or_chain_advances(tokens: Seq<Seq<char>>, left: ConditionView, pos: int)
    requires
        left.well_formed(),
        pos <= tokens.len(),
    ensures
        advances(or_chain(tokens, left, pos), tokens, pos - 1),
    decreases remaining(tokens, pos), 4int,
{
    if token_is(tokens, pos, "OR"@) {
        lemma_parse_or_advances(tokens, pos + 1);
        match spec_parse_or(tokens, pos + 1) {
            Ok((right, next)) => {
                lemma_or_chain_advances(tokens, join(left, LogicalOperator::Or, right), next);
            },
            Err(_) => {},
        }
    }
}

/// A term that is parsed ends behind the position where it began, and its
/// tree is well formed.
pub proof fn lemma_parse_or_advances(tokens: Seq<Seq<char>>, pos: int)
    ensures
        advances(spec_parse_or(tokens, pos), tokens, pos),
    decreases remaining(tokens, pos), 3int,
{
    lemma_parse_and_advances(tokens, pos);
    match spec_parse_and(tokens, pos) {
        Ok((left, next)) => {
            lemma_and_chain_advances(tokens, left, next);
        },
        Err(_) => {},
    }
}

/// A chain of `AND` that goes on from `pos` ends at `pos` or behind it, and
/// its tree is well formed where `left` is.
pub proof fn lemma_and_chain_advances(tokens: Seq<Seq<char>>, left: ConditionView, pos: int)
    requires
        left.well_formed(),
        pos <= tokens.len(),
    ensures
        advances(and_chain(tokens, left, pos), tokens, pos - 1),
    decreases remaining(tokens, pos), 2int,
{
    if token_is(tokens, pos, "AND"@) {
        lemma_parse_and_advances(tokens, pos + 1);
        match spec_parse_and(tokens, pos + 1) {
            Ok((right, next)) => {
                lemma_and_chain_advances(tokens, join(left, LogicalOperator::And, right), next);
            },
            Err(_) => {},
        }
    }
}

/// A factor that is parsed ends behind the position where it began, and
/// its tree is well formed.
pub proof fn lemma_parse_and_advances(tokens: Seq<Seq<char>>, pos: int)
    ensures
        advances(spec_parse_and(tokens, pos), tokens, pos),
    decreases remaining(tokens, pos), 1int,
{
    if token_is(tokens, pos, "NOT"@) {
        lemma_parse_condition_advances(tokens, pos + 1);
    } else {
        lemma_parse_base_advances(tokens, pos);
    }
}

/// A primary that is parsed ends behind the position where it began, and
/// its tree is well formed.
pub proof fn lemma_parse_base_advances(tokens: Seq<Seq<char>>, pos: int)
    ensures
        advances(spec_parse_base(tokens, pos), tokens, pos),
    decreases remaining(tokens, pos), 0int,
{
    if 0 <= pos < tokens.len() && tokens[pos] == "("@ {
        lemma_parse_condition_advances(tokens, pos + 1);
    }
}

/// The grammar without the tests for moving forward: they never fail.
pub proof fn lemma_grammar(tokens: Seq<Seq<char>>, left: ConditionView, pos: int)
    ensures
        spec_parse_condition(tokens, pos) == match spec_parse_or(tokens, pos) {
            Err(e) => Err(e),
            Ok((first, next)) => or_chain(tokens, first, next),
        },
        or_chain(tokens, left, pos) == if token_is(tokens, pos, "OR"@) {
            match spec_parse_or(tokens, pos + 1) {
                Err(e) => Err(e),
                Ok((right, next)) => or_chain(tokens, join(left, LogicalOperator::Or, right), next),
            }
        } else {
            Ok((left, pos))
        },
        spec_parse_or(tokens, pos) == match spec_parse_and(tokens, pos) {
            Err(e) => Err(e),
            Ok((first, next)) => and_chain(tokens, first, next),
        },
        and_chain(tokens, left, pos) == if token_is(tokens, pos, "AND"@) {
            match spec_parse_and(tokens, pos + 1) {
                Err(e) => Err(e),
                Ok((right, next)) => and_chain(
                    tokens,
                    join(left, LogicalOperator::And, right),
                    next,
                ),
            }
        } else {
            Ok((left, pos))
        },
{
    lemma_parse_or_advances(tokens, pos);
    lemma_parse_or_advances(tokens, pos + 1);
    lemma_parse_and_advances(tokens, pos);
    lemma_parse_and_advances(tokens, pos + 1);
}

/// Whether `r` is the outcome `outcome` of a parse that began at `pos`:
/// the same tree and position, or the same error. A parse that succeeds
/// has moved forward, has stayed within the tokens, and has built a
/// well-formed tree.
pub open spec fn parsed(
    r: Result<(Condition, usize), SqlError>,
    outcome: Result<(ConditionView, int), SqlError>,
    tokens: Seq<Seq<char>>,
    pos: int,
) -> bool {
    match r {
        Ok((c, next)) => {
            &&& outcome == Ok::<(ConditionView, int), SqlError>((c@, next as int))
            &&& pos < next <= tokens.len()
            &&& c@.well_formed()
        },
        Err(e) => outcome == Err::<(ConditionView, int), SqlError>(e),
    }
}

/// Parses the condition that starts at token `pos`. Gives the condition and
/// the position of the first token that is not part of it.
///
/// Fails with `Error` where a token is missing (a column, an operator, a
/// literal, a closing parenthesis), and with `InvalidSyntax` where a
/// comparison has an operator other than `=`, `<` and `>`.
pub fn parse_condition(tokens: &Vec<&str>, pos: usize) -> (r: Result<(Condition, usize), SqlError>)
    ensures
        parsed(r, spec_parse_condition(tokens.deep_view(), pos as int), tokens.deep_view(), pos as int),
    decreases remaining(tokens.deep_view(), pos as int), 5int,
{
    let ghost toks = tokens.deep_view();
    let (mut left, mut p) = parse_or(tokens, pos)?;
    while p < tokens.len() && is_or(tokens[p])
        invariant
            toks == tokens.deep_view(),
            pos < p <= tokens.len(),
            left@.well_formed(),
            spec_parse_condition(toks, pos as int) == or_chain(toks, left@, p as int),
        decreases tokens.len() - p,
    {
        let (right, next) = parse_or(tokens, p + 1)?;
        left = Condition::new_complex(Some(left), LogicalOperator::Or, right);
        p = next;
    }
    Ok((left, p))
}

/// Parses the term that starts at token `pos`.
fn parse_or(tokens: &Vec<&str>, pos: usize) -> (r: Result<(Condition, usize), SqlError>)
    ensures
        parsed(r, spec_parse_or(tokens.deep_view(), pos as int), tokens.deep_view(), pos as int),
    decreases remaining(tokens.deep_view(), pos as int), 3int,
{
    let ghost toks = tokens.deep_view();
    let (mut left, mut p) = parse_and(tokens, pos)?;
    while p < tokens.len() && is_and(tokens[p])
        invariant
            toks == tokens.deep_view(),
            pos < p <= tokens.len(),
            left@.well_formed(),
            spec_parse_or(toks, pos as int) == and_chain(toks, left@, p as int),
        decreases tokens.len() - p,
    {
        let (right, next) = parse_and(tokens, p + 1)?;
        left = Condition::new_complex(Some(left), LogicalOperator::And, right);
        p = next;
    }
    Ok((left, p))
}

/// Parses the factor that starts at token `pos`.
fn parse_and(tokens: &Vec<&str>, pos: usize) -> (r: Result<(Condition, usize), SqlError>)
    ensures
        parsed(r, spec_parse_and(tokens.deep_view(), pos as int), tokens.deep_view(), pos as int),
    decreases remaining(tokens.deep_view(), pos as int), 1int,
{
    if pos < tokens.len() && is_not(tokens[pos]) {
        let (operand, next) = parse_condition(tokens, pos + 1)?;
        Ok((Condition::new_complex(None, LogicalOperator::Not, operand), next))
    } else {
        parse_base(tokens, pos)
    }
}

/// Parses the primary that starts at token `pos`.
fn parse_base(tokens: &Vec<&str>, pos: usize) -> (r: Result<(Condition, usize), SqlError>)
    ensures
        parsed(r, spec_parse_base(tokens.deep_view(), pos as int), tokens.deep_view(), pos as int),
    decreases remaining(tokens.deep_view(), pos as int), 0int,
{
    if pos >= tokens.len() {
        return Err(SqlError::Error);
    }
    if is_left_paren(tokens[pos]) {
        let (inner, next) = parse_condition(tokens, pos + 1)?;
        if next < tokens.len() && is_right_paren(tokens[next]) {
            Ok((inner, next + 1))
        } else {
            Err(SqlError::Error)
        }
    } else {
        let mut p = pos;
        let simple = Condition::new_simple_from_tokens(tokens, &mut p)?;
        Ok((simple, p))
    }
}

} // verus!
