//! Conditions on a row: comparisons of one column with a literal, joined by
//! `AND`, `OR` and `NOT`.
use vstd::prelude::*;
use crate::errors::SqlError;
use crate::register::Register;
use crate::text::{is_text_less, same_text, text_less};

verus! {

/// How two conditions are joined, or one is negated.
#[derive(Debug, Clone, Copy, PartialEq, Eq, Structural)]
pub enum LogicalOperator {
    And,
    Or,
    Not,
}

/// How a column is compared with a literal.
#[derive(Debug, Clone, Copy, PartialEq, Eq, Structural)]
pub enum Operator {
    Equal,
    Greater,
    Lesser,
}

/// A condition on a row, as a tree.
///
/// A `Complex` node with `And` or `Or` has both sides; one with `Not` has
/// no left side and negates its right side.
#[derive(Debug, PartialEq)]
#[allow(inconsistent_fields)]
pub enum Condition {
    Simple { field: String, operator: Operator, value: String },
    Complex { left: Option<Box<Condition>>, operator: LogicalOperator, right: Box<Condition> },
}

/// A condition as a mathematical tree over texts.
#[allow(inconsistent_fields)]
pub ghost enum ConditionView {
    Simple { field: Seq<char>, operator: Operator, value: Seq<char> },
    Complex {
        left: Option<Box<ConditionView>>,
        operator: LogicalOperator,
        right: Box<ConditionView>,
    },
}

impl Condition {
    /// The tree that this condition is, over the texts of its fields and
    /// literals.
    pub open spec fn tree(&self) -> ConditionView
        decreases self,
    {
        match self {
            Condition::Simple { field, operator, value } => ConditionView::Simple {
                field: field@,
                operator: *operator,
                value: value@,
            },
            Condition::Complex { left, operator, right } => ConditionView::Complex {
                left: match left {
                    Some(l) => Some(Box::new(l.tree())),
                    None => None,
                },
                operator: *operator,
                right: Box::new(right.tree()),
            },
        }
    }
}

impl View for Condition {
    type V = ConditionView;

    open spec fn view(&self) -> ConditionView {
        self.tree()
    }
}

/// What the comparison `operator` says of the texts `x` and `y`. Texts are
/// compared in dictionary order, character by character, never as numbers.
pub open spec fn compare(x: Seq<char>, operator: Operator, y: Seq<char>) -> bool {
    match operator {
        Operator::Equal => x == y,
        Operator::Greater => text_less(y, x),
        Operator::Lesser => text_less(x, y),
    }
}

/// The operator that `token` writes, if it writes one.
pub open spec fn operator_of(token: Seq<char>) -> Option<Operator> {
    if token == "="@ {
        Some(Operator::Equal)
    } else if token == ">"@ {
        Some(Operator::Greater)
    } else if token == "<"@ {
        Some(Operator::Lesser)
    } else {
        None
    }
}

impl ConditionView {
    /// Whether every `And` and `Or` in the tree has a left side and no `Not`
    /// has one.
    pub open spec fn well_formed(self) -> bool
        decreases self,
    {
        match self {
            ConditionView::Simple { .. } => true,
            ConditionView::Complex { left, operator, right } => {
                &&& (left is None <==> operator == LogicalOperator::Not)
                &&& (left is Some ==> left->0.well_formed())
                &&& right.well_formed()
            },
        }
    }

    /// The columns that the tree compares.
    pub open spec fn columns(self) -> Set<Seq<char>>
        decreases self,
    {
        match self {
            ConditionView::Simple { field, .. } => set![field],
            ConditionView::Complex { left, operator, right } => match left {
                Some(l) => l.columns().union(right.columns()),
                None => right.columns(),
            },
        }
    }

    /// The truth of the condition on `row`. A comparison of a column that
    /// the row lacks fails, and so does an `And` or `Or` without a left side;
    /// a failure anywhere in the tree is the failure of the whole.
    pub open spec fn eval(self, row: Map<Seq<char>, Seq<char>>) -> Result<bool, SqlError>
        decreases self,
    {
        match self {
            ConditionView::Simple { field, operator, value } => {
                if row.contains_key(field) {
                    Ok(compare(row[field], operator, value))
                } else {
                    Err(SqlError::Error)
                }
            },
            ConditionView::Complex { left, operator, right } => match operator {
                LogicalOperator::Not => match right.eval(row) {
                    Ok(r) => Ok(!r),
                    Err(e) => Err(e),
                },
                _ => match left {
                    None => Err(SqlError::Error),
                    Some(l) => match (l.eval(row), right.eval(row)) {
                        (Ok(a), Ok(b)) => Ok(
                            if operator == LogicalOperator::And {
                                a && b
                            } else {
                                a || b
                            },
                        ),
                        (Err(e), _) => Err(e),
                        (_, Err(e)) => Err(e),
                    },
                },
            },
        }
    }
}

impl Condition {
    /// The comparison of column `field` with the literal `value`. Fails with
    /// `InvalidSyntax` when `operator` is none of `=`, `>` and `<`.
    pub fn new_simple(field: &str, operator: &str, value: &str) -> (r: Result<Self, SqlError>)
        ensures
            match r {
                Ok(c) => operator_of(operator@) is Some && c@ == (ConditionView::Simple {
                    field: field@,
                    operator: operator_of(operator@)->0,
                    value: value@,
                }),
                Err(e) => e == SqlError::InvalidSyntax && operator_of(operator@) is None,
            },
    {
        let op = if same_text(operator, "=") {
            Operator::Equal
        } else if same_text(operator, ">") {
            Operator::Greater
        } else if same_text(operator, "<") {
            Operator::Lesser
        } else {
            return Err(SqlError::InvalidSyntax);
        };
        Ok(Condition::Simple { field: field.to_owned(), operator: op, value: value.to_owned() })
    }

    /// The comparison written by the three tokens at `pos`: column, operator,
    /// literal. On success `pos` has moved behind them.
    ///
    /// Fails with `Error` when fewer than three tokens are left, and with
    /// `InvalidSyntax` when the second is no comparison operator.
    pub fn new_simple_from_tokens(tokens: &Vec<&str>, pos: &mut usize) -> (r: Result<
        Self,
        SqlError,
    >)
        ensures
            match r {
                Ok(c) => {
                    &&& *old(pos) + 3 <= tokens.len()
                    &&& *final(pos) == *old(pos) + 3
                    &&& operator_of(tokens@[*old(pos) + 1]@) is Some
                    &&& c@ == (ConditionView::Simple {
                        field: tokens@[*old(pos) as int]@,
                        operator: operator_of(tokens@[*old(pos) + 1]@)->0,
                        value: tokens@[*old(pos) + 2]@,
                    })
                },
                Err(e) => if *old(pos) + 3 <= tokens.len() {
                    &&& e == SqlError::InvalidSyntax
                    &&& operator_of(tokens@[*old(pos) + 1]@) is None
                    &&& *final(pos) == *old(pos) + 3
                } else {
                    &&& e == SqlError::Error
                    &&& *final(pos) == if *old(pos) < tokens.len() {
                        tokens.len()
                    } else {
                        *old(pos)
                    }
                },
            },
    {
        if *pos >= tokens.len() {
            return Err(SqlError::Error);
        }
        let field = tokens[*pos];
        *pos += 1;
        if *pos >= tokens.len() {
            return Err(SqlError::Error);
        }
        let operator = tokens[*pos];
        *pos += 1;
        if *pos >= tokens.len() {
            return Err(SqlError::Error);
        }
        let value = tokens[*pos];
        *pos += 1;
        Condition::new_simple(field, operator, value)
    }

    /// The tree with `operator` at its root over `left` and `right`.
    pub fn new_complex(left: Option<Condition>, operator: LogicalOperator, right: Condition) -> (c:
        Self)
        ensures
            c@ == (ConditionView::Complex {
                left: match left {
                    Some(l) => Some(Box::new(l@)),
                    None => None,
                },
                operator: operator,
                right: Box::new(right@),
            }),
    {
        let left = match left {
            Some(l) => Some(Box::new(l)),
            None => None,
        };
        Condition::Complex { left, operator, right: Box::new(right) }
    }

    /// Whether the condition holds of `register`.
    ///
    /// Fails with `Error` when the condition compares a column that the row
    /// lacks, or holds an `And` or `Or` without a left side.
    pub fn execute(&self, register: &Register) -> (r: Result<bool, SqlError>)
        ensures
            r == self@.eval(register@),
        decreases self,
    {
        match self {
            Condition::Simple { field, operator, value } => {
                match register.get(field.as_str()) {
                    Some(x) => match operator {
                        Operator::Lesser => Ok(is_text_less(x.as_str(), value.as_str())),
                        Operator::Greater => Ok(is_text_less(value.as_str(), x.as_str())),
                        Operator::Equal => Ok(same_text(x.as_str(), value.as_str())),
                    },
                    None => Err(SqlError::Error),
                }
            },
            Condition::Complex { left, operator, right } => match operator {
                LogicalOperator::Not => {
                    let result = right.execute(register)?;
                    Ok(!result)
                },
                LogicalOperator::Or => match left {
                    Some(left) => {
                        let left_result = left.execute(register)?;
                        let right_result = right.execute(register)?;
                        Ok(left_result || right_result)
                    },
                    None => Err(SqlError::Error),
                },
                LogicalOperator::And => match left {
                    Some(left) => {
                        let left_result = left.execute(register)?;
                        let right_result = right.execute(register)?;
                        Ok(left_result && right_result)
                    },
                    None => Err(SqlError::Error),
                },
            },
        }
    }
}

/// A well-formed condition can be decided on a row exactly when the row has
/// every column that the condition compares; otherwise deciding it fails
/// with `Error`.
pub proof fn lemma_eval_defined(c: ConditionView, row: Map<Seq<char>, Seq<char>>)
    requires
        c.well_formed(),
    ensures
        c.eval(row) is Ok <==> c.columns().subset_of(row.dom()),
        c.eval(row) is Err ==> c.eval(row) == Err::<bool, SqlError>(SqlError::Error),
    decreases c,
{
    match c {
        ConditionView::Simple { field, .. } => {
            assert(c.columns().contains(field));
        },
        ConditionView::Complex { left, operator, right } => {
            lemma_eval_defined(*right, row);
            match left {
                Some(l) => {
                    lemma_eval_defined(*l, row);
                    assert(c.columns() == l.columns().union(right.columns()));
                    if c.columns().subset_of(row.dom()) {
                        assert forall|k: Seq<char>| l.columns().contains(k) implies row.dom().contains(
                            k,
                        ) by {
                            assert(c.columns().contains(k));
                        }
                        assert forall|k: Seq<char>| right.columns().contains(k) implies row.dom().contains(
                            k,
                        ) by {
                            assert(c.columns().contains(k));
                        }
                    }
                },
                None => {},
            }
        },
    }
}

} // verus!
