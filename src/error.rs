//! Evaluation errors, and their view with strings as character sequences.
use vstd::prelude::*;
use crate::types::{Expression, Number};

verus! {

/// Why an evaluation failed. Every error ends the evaluation.
#[derive(Debug, PartialEq, Eq)]
pub enum EvaluationError {
    /// A fixed-arity procedure got the wrong number of arguments:
    /// procedure name, expected count, actual count.
    WrongNumberOfArguments(String, usize, usize),
    /// A variable-arity procedure got fewer arguments than its minimum:
    /// procedure name, minimum count, actual count.
    WrongNumberOfVariableArguments(String, usize, usize),
    /// A builtin got an argument of the wrong shape:
    /// procedure name, what was expected, the argument.
    InvalidArgument(String, String, Expression),
    UndefinedSymbol(String),
    /// Division by zero, with the dividend.
    DivideByZero(Number),
    /// The head of a call is not a procedure.
    NotAProcedure(Expression),
}

/// An evaluation error with its strings taken as character sequences.
pub enum Fault {
    WrongNumberOfArguments(Seq<char>, usize, usize),
    WrongNumberOfVariableArguments(Seq<char>, usize, usize),
    InvalidArgument(Seq<char>, Seq<char>, Expression),
    UndefinedSymbol(Seq<char>),
    DivideByZero(Number),
    NotAProcedure(Expression),
}

impl View for EvaluationError {
    type V = Fault;

    open spec fn view(&self) -> Fault {
        match self {
            EvaluationError::WrongNumberOfArguments(n, e, a) => Fault::WrongNumberOfArguments(n@, *e, *a),
            EvaluationError::WrongNumberOfVariableArguments(n, e, a) => Fault::WrongNumberOfVariableArguments(n@, *e, *a),
            EvaluationError::InvalidArgument(n, e, a) => Fault::InvalidArgument(n@, e@, *a),
            EvaluationError::UndefinedSymbol(s) => Fault::UndefinedSymbol(s@),
            EvaluationError::DivideByZero(n) => Fault::DivideByZero(*n),
            EvaluationError::NotAProcedure(e) => Fault::NotAProcedure(*e),
        }
    }
}

impl Clone for EvaluationError {
    fn clone(&self) -> (r: Self)
        ensures
            r == *self,
    {
        match self {
            EvaluationError::WrongNumberOfArguments(n, e, a) => EvaluationError::WrongNumberOfArguments(n.clone(), *e, *a),
            EvaluationError::WrongNumberOfVariableArguments(n, e, a) => EvaluationError::WrongNumberOfVariableArguments(n.clone(), *e, *a),
            EvaluationError::InvalidArgument(n, e, a) => EvaluationError::InvalidArgument(n.clone(), e.clone(), a.clone()),
            EvaluationError::UndefinedSymbol(s) => EvaluationError::UndefinedSymbol(s.clone()),
            EvaluationError::DivideByZero(n) => EvaluationError::DivideByZero(*n),
            EvaluationError::NotAProcedure(e) => EvaluationError::NotAProcedure(e.clone()),
        }
    }
}

impl EvaluationError {
    /// The error for an argument `actual` of `procedure_name` that is not
    /// what `expected` describes.
    pub fn invalid_argument(procedure_name: &str, expected: &str, actual: &Expression) -> (r: EvaluationError)
        ensures
            r@ == Fault::InvalidArgument(procedure_name@, expected@, *actual),
    {
        EvaluationError::InvalidArgument(
            String::from_str(procedure_name),
            String::from_str(expected),
            actual.clone(),
        )
    }
}

} // verus!
