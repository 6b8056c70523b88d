//! A small Lisp whose evaluator is an explicit frame-stack machine that
//! advances one bounded step ("tick") at a time.
pub mod bindings;
pub mod builtins;
pub mod error;
pub mod machine;
pub mod parse;
pub mod scope;
pub mod text;
pub mod token;
pub mod types;

pub use crate::bindings::{BindingLayer, Bindings};
pub use crate::builtins::{
    apply_builtin, arg_vec, define_builtins, equal, evaluate_arithmetic, evaluate_car, evaluate_cdr,
    evaluate_comparison, evaluate_cons, evaluate_lambda, vec_arg,
};
pub use crate::error::EvaluationError;
pub use crate::machine::{Frame, State};
pub use crate::parse::{parse, parse_expression, ParseError, ParseResult};
pub use crate::scope::{evaluate, Scope};
pub use crate::token::{consume_non_tokens, pop_token};
pub use crate::types::{BuiltinProcedure, Cons, Expression, LambdaProcedure, Number, Operation, Procedure};
