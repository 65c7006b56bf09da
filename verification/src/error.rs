//! The ways an evaluation can fail.
use crate::types::{Expression, Term};
use std::rc::Rc;
use vstd::prelude::*;

verus! {

/// The place where a value of the wrong kind turned up.
#[derive(Debug, Clone, Copy, PartialEq, Eq)]
pub enum Context {
    /// The predicate of `if`.
    IfPredicate,
    /// The predicate of a `cond` clause.
    CondPredicate,
    /// An operand of `and`.
    AndOperand,
    /// An operand of `or`.
    OrOperand,
    /// An operand of `+`.
    AddOperand,
    /// An operand of `-`.
    SubOperand,
    /// An operand of `*`.
    MulOperand,
    /// An operand of `/`.
    DivOperand,
    /// The left operand of `<`.
    LessThanLeft,
    /// The right operand of `<`.
    LessThanRight,
    /// The left operand of `=`.
    EqualLeft,
    /// The right operand of `=`.
    EqualRight,
    /// The left operand of `remainder`.
    RemainderLeft,
    /// The right operand of `remainder`.
    RemainderRight,
}

/// Why an evaluation failed.
#[derive(Debug, Clone, PartialEq)]
pub enum EvalError {
    /// The name is bound in no frame and is no special form.
    UnboundVariable(String),
    /// An application without elements.
    EmptyApplication,
    /// The operator position evaluated to this value, which is no procedure.
    NotAProcedure(Rc<Expression>),
    /// A procedure or a special form got the wrong number of operands. For
    /// a form that takes a minimum, `expected` is that minimum.
    ArityMismatch { expected: usize, actual: usize },
    /// This value is of the wrong kind for the place named.
    TypeMismatch(Context, Rc<Expression>),
    /// `define` with the wrong shape.
    MalformedDefine,
    /// `cond` without clauses, or with a clause that is no pair.
    MalformedCond,
    /// Every predicate of a `cond` was false.
    NoMatchingClause,
    /// The fault of `/` and `remainder`: a zero divisor, or the one integer
    /// quotient that does not fit in 32 bits.
    DivisionByZero,
    /// A procedure call would nest deeper than the environment allows.
    DepthExceeded,
}

/// The model of an `EvalError`.
pub enum Failure {
    UnboundVariable(Seq<char>),
    EmptyApplication,
    NotAProcedure(Term),
    ArityMismatch { expected: nat, actual: nat },
    TypeMismatch(Context, Term),
    MalformedDefine,
    MalformedCond,
    NoMatchingClause,
    DivisionByZero,
    DepthExceeded,
}

impl View for EvalError {
    type V = Failure;

    open spec fn view(&self) -> Failure {
        match self {
            EvalError::UnboundVariable(name) => Failure::UnboundVariable(name@),
            EvalError::EmptyApplication => Failure::EmptyApplication,
            EvalError::NotAProcedure(value) => Failure::NotAProcedure(value@),
            EvalError::ArityMismatch { expected, actual } => Failure::ArityMismatch {
                expected: *expected as nat,
                actual: *actual as nat,
            },
            EvalError::TypeMismatch(context, value) => Failure::TypeMismatch(*context, value@),
            EvalError::MalformedDefine => Failure::MalformedDefine,
            EvalError::MalformedCond => Failure::MalformedCond,
            EvalError::NoMatchingClause => Failure::NoMatchingClause,
            EvalError::DivisionByZero => Failure::DivisionByZero,
            EvalError::DepthExceeded => Failure::DepthExceeded,
        }
    }
}

/// The model of what an evaluation hands back.
pub open spec fn result_view(r: Result<Rc<Expression>, EvalError>) -> Result<Term, Failure> {
    match r {
        Ok(value) => Ok(value@),
        Err(error) => Err(error@),
    }
}

} // verus!
