//! The builtin procedures: what each computes from its arguments, and the
//! table of builtins that a session starts with.
use vstd::prelude::*;
use crate::bindings::Bindings;
use crate::error::{EvaluationError, Fault};
use crate::types::{copy_expression, list_items, list_of, same, BuiltinProcedure, Cons, Expression, LambdaProcedure, Number, Operation, Procedure};

verus! {

/// The number of cells in the chain of pairs that starts at `e`.
pub open spec fn list_len(e: Expression) -> nat
    decreases e,
{
    match e {
        Expression::Cons(c) => 1 + list_len(*c.cdr),
        _ => 0,
    }
}

/// An error with its strings taken as character sequences.
pub open spec fn result_view(r: Result<Expression, EvaluationError>) -> Result<Expression, Fault> {
    match r {
        Ok(v) => Ok(v),
        Err(e) => Err(e@),
    }
}

/// `a / b` rounded toward zero, wrapped to 32 bits.
pub open spec fn truncating_div(a: i32, b: i32) -> i32 {
    let ma: int = if a < 0 { -a } else { a as int };
    let mb: int = if b < 0 { -b } else { b as int };
    let q: int = ma / mb;
    if (a < 0) != (b < 0) {
        (-q) as i32
    } else {
        q as i32
    }
}

/// One step of an arithmetic fold, wrapping on overflow.
pub open spec fn combine(op: Operation, acc: i32, n: i32) -> i32 {
    match op {
        Operation::Add => acc.wrapping_add(n),
        Operation::Multiply => acc.wrapping_mul(n),
        Operation::Subtract => acc.wrapping_sub(n),
        Operation::Divide => truncating_div(acc, n),
        _ => acc,
    }
}

/// Folds the numbers of `rest` into `acc`, left to right.
pub open spec fn fold_numbers(name: Seq<char>, op: Operation, acc: i32, rest: Expression) -> Result<Expression, Fault>
    decreases rest,
{
    match rest {
        Expression::Cons(c) => match *c.car {
            Expression::Number(Number::Integer(n)) => {
                if op == Operation::Divide && n == 0 {
                    Err(Fault::DivideByZero(Number::Integer(acc)))
                } else {
                    fold_numbers(name, op, combine(op, acc, n), *c.cdr)
                }
            },
            other => Err(Fault::InvalidArgument(name, "number"@, other)),
        },
        _ => Ok(Expression::Number(Number::Integer(acc))),
    }
}

/// The value of `+`, `*`, `-` or `/` applied to the values `args`.
/// With one argument `-` negates it and `/` takes its reciprocal.
pub open spec fn arithmetic(name: Seq<char>, op: Operation, args: Expression) -> Result<Expression, Fault> {
    match args {
        Expression::Cons(c) => match *c.car {
            Expression::Number(Number::Integer(first)) => {
                if *c.cdr is Cons {
                    fold_numbers(name, op, first, *c.cdr)
                } else if op == Operation::Subtract {
                    Ok(Expression::Number(Number::Integer(0i32.wrapping_sub(first))))
                } else if op == Operation::Divide {
                    if first == 0 {
                        Err(Fault::DivideByZero(Number::Integer(1)))
                    } else {
                        Ok(Expression::Number(Number::Integer(truncating_div(1, first))))
                    }
                } else {
                    Ok(Expression::Number(Number::Integer(first)))
                }
            },
            other => Err(Fault::InvalidArgument(name, "number"@, other)),
        },
        _ => Err(Fault::WrongNumberOfVariableArguments(name, 1, 0)),
    }
}

fn wrapping_combine(op: Operation, acc: i32, n: i32) -> (r: i32)
    requires
        op == Operation::Divide ==> n != 0,
    ensures
        r == combine(op, acc, n),
{
    match op {
        Operation::Add => acc.wrapping_add(n),
        Operation::Multiply => acc.wrapping_mul(n),
        Operation::Subtract => acc.wrapping_sub(n),
        Operation::Divide => divide_toward_zero(acc, n),
        _ => acc,
    }
}

fn divide_toward_zero(a: i32, b: i32) -> (r: i32)
    requires
        b != 0,
    ensures
        r == truncating_div(a, b),
{
    let ma: i64 = if a < 0 { -(a as i64) } else { a as i64 };
    let mb: i64 = if b < 0 { -(b as i64) } else { b as i64 };
    let q: i64 = ma / mb;
    assert(q <= ma) by (nonlinear_arith)
        requires ma >= 0, mb >= 1, q == ma / mb;
    let signed: i64 = if (a < 0) != (b < 0) { -q } else { q };
    let r: i32 = #[verifier::truncate] (signed as i32);
    r
}

/// Applies `+`, `*`, `-` or `/` (by `op`) to the values `args`.
pub fn evaluate_arithmetic(name: &String, op: Operation, args: &Expression) -> (r: Result<Expression, EvaluationError>)
    ensures
        result_view(r) == arithmetic(name@, op, *args),
{
    match args {
        Expression::Cons(c) => match &*c.car {
            Expression::Number(Number::Integer(first)) => {
                let first = *first;
                if let Expression::Cons(_) = &*c.cdr {
                    let mut acc = first;
                    let mut cur: &Expression = &c.cdr;
                    loop
                        invariant
                            arithmetic(name@, op, *args) == fold_numbers(name@, op, acc, *cur),
                        decreases list_len(*cur),
                    {
                        match cur {
                            Expression::Cons(cell) => match &*cell.car {
                                Expression::Number(Number::Integer(n)) => {
                                    if op == Operation::Divide && *n == 0 {
                                        return Err(EvaluationError::DivideByZero(Number::Integer(acc)));
                                    }
                                    acc = wrapping_combine(op, acc, *n);
                                    cur = &cell.cdr;
                                },
                                other => {
                                    return Err(EvaluationError::invalid_argument(name.as_str(), "number", other));
                                },
                            },
                            _ => {
                                return Ok(Expression::Number(Number::Integer(acc)));
                            },
                        }
                    }
                } else if op == Operation::Subtract {
                    Ok(Expression::Number(Number::Integer(0i32.wrapping_sub(first))))
                } else if op == Operation::Divide {
                    if first == 0 {
                        Err(EvaluationError::DivideByZero(Number::Integer(1)))
                    } else {
                        Ok(Expression::Number(Number::Integer(divide_toward_zero(1, first))))
                    }
                } else {
                    Ok(Expression::Number(Number::Integer(first)))
                }
            },
            other => Err(EvaluationError::invalid_argument(name.as_str(), "number", other)),
        },
        _ => Err(EvaluationError::WrongNumberOfVariableArguments(name.clone(), 1, 0)),
    }
}

/// The first element of `rest` that is not a number.
pub open spec fn first_non_number(rest: Expression) -> Option<Expression>
    decreases rest,
{
    match rest {
        Expression::Cons(c) => match *c.car {
            Expression::Number(_) => first_non_number(*c.cdr),
            other => Some(other),
        },
        _ => None,
    }
}

/// Whether `a op b` holds for the comparison `op`.
pub open spec fn holds(op: Operation, a: i32, b: i32) -> bool {
    match op {
        Operation::Equals => a == b,
        Operation::LessThan => a < b,
        Operation::GreaterThan => a > b,
        Operation::LessThanOrEqual => a <= b,
        _ => a >= b,
    }
}

/// Whether each number of `rest` stands in relation `op` to the one before it,
/// the first to `prev`.
pub open spec fn chain(op: Operation, prev: i32, rest: Expression) -> bool
    decreases rest,
{
    match rest {
        Expression::Cons(c) => match *c.car {
            Expression::Number(Number::Integer(n)) => holds(op, prev, n) && chain(op, n, *c.cdr),
            _ => false,
        },
        _ => true,
    }
}

/// The value of `=`, `<`, `>`, `<=` or `>=` applied to the values `args`:
/// every argument must be a number, and the relation must hold between each
/// pair of neighbours.
pub open spec fn comparison(name: Seq<char>, op: Operation, args: Expression) -> Result<Expression, Fault> {
    match args {
        Expression::Cons(c) => match first_non_number(args) {
            Some(x) => Err(Fault::InvalidArgument(name, "number"@, x)),
            None => match *c.car {
                Expression::Number(Number::Integer(first)) => Ok(Expression::Boolean(chain(op, first, *c.cdr))),
                _ => Ok(Expression::Boolean(false)),
            },
        },
        _ => Err(Fault::WrongNumberOfVariableArguments(name, 1, 0)),
    }
}

fn compare(op: Operation, a: i32, b: i32) -> (r: bool)
    ensures
        r == holds(op, a, b),
{
    match op {
        Operation::Equals => a == b,
        Operation::LessThan => a < b,
        Operation::GreaterThan => a > b,
        Operation::LessThanOrEqual => a <= b,
        _ => a >= b,
    }
}

/// Applies `=`, `<`, `>`, `<=` or `>=` (by `op`) to the values `args`.
pub fn evaluate_comparison(name: &String, op: Operation, args: &Expression) -> (r: Result<Expression, EvaluationError>)
    ensures
        result_view(r) == comparison(name@, op, *args),
{
    match args {
        Expression::Cons(c) => {
            let mut cur: &Expression = args;
            loop
                invariant
                    first_non_number(*args) == first_non_number(*cur),
                ensures
                    first_non_number(*args) is None,
                decreases list_len(*cur),
            {
                match cur {
                    Expression::Cons(cell) => match &*cell.car {
                        Expression::Number(_) => {
                            cur = &cell.cdr;
                        },
                        other => {
                            return Err(EvaluationError::invalid_argument(name.as_str(), "number", other));
                        },
                    },
                    _ => {
                        break;
                    },
                }
            }
            match &*c.car {
                Expression::Number(Number::Integer(first)) => {
                    let mut prev = *first;
                    let mut rest: &Expression = &c.cdr;
                    loop
                        invariant
                            comparison(name@, op, *args) == Ok::<Expression, Fault>(Expression::Boolean(chain(op, prev, *rest))),
                        decreases list_len(*rest),
                    {
                        match rest {
                            Expression::Cons(cell) => match &*cell.car {
                                Expression::Number(Number::Integer(n)) => {
                                    if !compare(op, prev, *n) {
                                        return Ok(Expression::Boolean(false));
                                    }
                                    prev = *n;
                                    rest = &cell.cdr;
                                },
                                _ => {
                                    return Ok(Expression::Boolean(false));
                                },
                            },
                            _ => {
                                return Ok(Expression::Boolean(true));
                            },
                        }
                    }
                },
                _ => Ok(Expression::Boolean(false)),
            }
        },
        _ => Err(EvaluationError::WrongNumberOfVariableArguments(name.clone(), 1, 0)),
    }
}

/// Whether `a` and `b` are equal as values.
pub fn equal(a: &Expression, b: &Expression) -> (r: bool)
    ensures
        r == same(*a, *b),
    decreases a,
{
    match (a, b) {
        (Expression::Symbol(x), Expression::Symbol(y)) => *x == *y,
        (Expression::Cons(x), Expression::Cons(y)) => equal(&x.car, &y.car) && equal(&x.cdr, &y.cdr),
        (Expression::Number(Number::Integer(x)), Expression::Number(Number::Integer(y))) => *x == *y,
        (Expression::Boolean(x), Expression::Boolean(y)) => *x == *y,
        (Expression::Procedure(Procedure::BuiltinProcedure(x)), Expression::Procedure(Procedure::BuiltinProcedure(y))) => {
            x.name == y.name && x.operation == y.operation && x.arity == y.arity && x.variadic == y.variadic
                && x.ticks == y.ticks
        },
        (Expression::Procedure(Procedure::LambdaProcedure(x)), Expression::Procedure(Procedure::LambdaProcedure(y))) => {
            equal(&x.formals, &y.formals) && equal(&x.body, &y.body)
        },
        (Expression::Null, Expression::Null) => true,
        (Expression::Void, Expression::Void) => true,
        _ => false,
    }
}

/// The value of `(car x)`: the first half of a pair.
pub open spec fn car_of(name: Seq<char>, x: Expression) -> Result<Expression, Fault> {
    match x {
        Expression::Cons(c) => Ok(*c.car),
        _ => Err(Fault::InvalidArgument(name, "list"@, x)),
    }
}

/// The value of `(cdr x)`: the second half of a pair.
pub open spec fn cdr_of(name: Seq<char>, x: Expression) -> Result<Expression, Fault> {
    match x {
        Expression::Cons(c) => Ok(*c.cdr),
        _ => Err(Fault::InvalidArgument(name, "list"@, x)),
    }
}

/// `(car x)`.
pub fn evaluate_car(name: &String, x: &Expression) -> (r: Result<Expression, EvaluationError>)
    ensures
        result_view(r) == car_of(name@, *x),
{
    match x {
        Expression::Cons(c) => Ok(copy_expression(&c.car)),
        _ => Err(EvaluationError::invalid_argument(name.as_str(), "list", x)),
    }
}

/// `(cdr x)`.
pub fn evaluate_cdr(name: &String, x: &Expression) -> (r: Result<Expression, EvaluationError>)
    ensures
        result_view(r) == cdr_of(name@, *x),
{
    match x {
        Expression::Cons(c) => Ok(copy_expression(&c.cdr)),
        _ => Err(EvaluationError::invalid_argument(name.as_str(), "list", x)),
    }
}

/// `(cons a b)`: the pair of `a` and `b`.
pub fn evaluate_cons(a: &Expression, b: &Expression) -> (r: Expression)
    ensures
        r == crate::types::pair(*a, *b),
{
    Expression::Cons(Cons::new(a, b))
}

/// What is wrong with the parameter list `f` of a lambda from its first
/// element `f` on: each element must be a symbol, and the list ends with the
/// empty list or with a rest symbol.
pub open spec fn parameters_fault(name: Seq<char>, f: Expression) -> Option<Fault>
    decreases f,
{
    match f {
        Expression::Cons(c) => match *c.car {
            Expression::Symbol(_) => parameters_fault(name, *c.cdr),
            _ => Some(Fault::InvalidArgument(name, "list of symbols"@, f)),
        },
        Expression::Null => None,
        Expression::Symbol(_) => None,
        other => Some(Fault::InvalidArgument(name, "symbol"@, other)),
    }
}

/// What is wrong with the formals `f` of a lambda: a lone symbol takes all
/// arguments as a list; otherwise `f` must be a parameter list.
pub open spec fn formals_fault(name: Seq<char>, f: Expression) -> Option<Fault> {
    match f {
        Expression::Symbol(_) => None,
        Expression::Cons(_) => parameters_fault(name, f),
        Expression::Null => None,
        other => Some(Fault::InvalidArgument(name, "list"@, other)),
    }
}

/// The value of `(lambda formals body ...)` where `args` is `(formals body ...)`.
pub open spec fn lambda_of(name: Seq<char>, args: Expression) -> Result<Expression, Fault> {
    match args {
        Expression::Cons(c) => match formals_fault(name, *c.car) {
            Some(f) => Err(f),
            None => Ok(
                Expression::Procedure(Procedure::LambdaProcedure(LambdaProcedure { formals: c.car, body: c.cdr })),
            ),
        },
        _ => Err(Fault::WrongNumberOfVariableArguments(name, 2, 0)),
    }
}

fn check_parameters(name: &String, f: &Expression) -> (r: Option<EvaluationError>)
    ensures
        match r {
            Some(e) => parameters_fault(name@, *f) == Some(e@),
            None => parameters_fault(name@, *f) is None,
        },
{
    let mut cur: &Expression = f;
    loop
        invariant
            parameters_fault(name@, *f) == parameters_fault(name@, *cur),
        decreases list_len(*cur),
    {
        match cur {
            Expression::Cons(c) => match &*c.car {
                Expression::Symbol(_) => {
                    cur = &c.cdr;
                },
                _ => {
                    return Some(EvaluationError::invalid_argument(name.as_str(), "list of symbols", cur));
                },
            },
            Expression::Null => {
                return None;
            },
            Expression::Symbol(_) => {
                return None;
            },
            other => {
                return Some(EvaluationError::invalid_argument(name.as_str(), "symbol", other));
            },
        }
    }
}

/// `(lambda formals body ...)`, with `args` the list `(formals body ...)`
/// left unevaluated.
pub fn evaluate_lambda(name: &String, args: &Expression) -> (r: Result<Expression, EvaluationError>)
    ensures
        result_view(r) == lambda_of(name@, *args),
{
    match args {
        Expression::Cons(c) => {
            let fault = match &*c.car {
                Expression::Symbol(_) => None,
                Expression::Cons(_) => check_parameters(name, &c.car),
                Expression::Null => None,
                other => Some(EvaluationError::invalid_argument(name.as_str(), "list", other)),
            };
            match fault {
                Some(e) => Err(e),
                None => Ok(
                    Expression::Procedure(
                        Procedure::LambdaProcedure(
                            LambdaProcedure { formals: Box::new(copy_expression(&c.car)), body: Box::new(copy_expression(&c.cdr)) },
                        ),
                    ),
                ),
            }
        },
        _ => Err(EvaluationError::WrongNumberOfVariableArguments(name.clone(), 2, 0)),
    }
}

/// `n` as a `usize`, saturating at `usize::MAX`.
pub open spec fn clamp(n: nat) -> usize {
    if n > usize::MAX {
        usize::MAX
    } else {
        n as usize
    }
}

/// The error for calling `p` with `count` arguments, if it does not take that many.
pub open spec fn arity_fault(p: BuiltinProcedure, count: usize) -> Option<Fault> {
    if p.variadic {
        if count < p.arity {
            Some(Fault::WrongNumberOfVariableArguments(p.name@, p.arity, count))
        } else {
            None
        }
    } else if count != p.arity {
        Some(Fault::WrongNumberOfArguments(p.name@, p.arity, count))
    } else {
        None
    }
}

/// Element `i` of the list `args`; `Void` past its end.
pub open spec fn nth(args: Expression, i: nat) -> Expression
    decreases i,
{
    match args {
        Expression::Cons(c) => if i == 0 {
            *c.car
        } else {
            nth(*c.cdr, (i - 1) as nat)
        },
        _ => Expression::Void,
    }
}

/// `define` and `cond`, special forms that the machine carries out itself.
pub open spec fn is_special(op: Operation) -> bool {
    op == Operation::Define || op == Operation::Cond
}

/// The value of the builtin `p` applied to `args`: its arguments, evaluated
/// or not as the operation asks. It is not defined for the special forms.
pub open spec fn apply(p: BuiltinProcedure, args: Expression) -> Result<Expression, Fault>
    recommends
        !is_special(p.operation),
{
    match arity_fault(p, clamp(list_len(args))) {
        Some(f) => Err(f),
        None => match p.operation {
            Operation::Add | Operation::Multiply | Operation::Subtract | Operation::Divide => arithmetic(
                p.name@,
                p.operation,
                args,
            ),
            Operation::Equals | Operation::LessThan | Operation::GreaterThan | Operation::LessThanOrEqual
            | Operation::GreaterThanOrEqual => comparison(p.name@, p.operation, args),
            Operation::Eq => Ok(Expression::Boolean(same(nth(args, 0), nth(args, 1)))),
            Operation::Cons => Ok(crate::types::pair(nth(args, 0), nth(args, 1))),
            Operation::Car => car_of(p.name@, nth(args, 0)),
            Operation::Cdr => cdr_of(p.name@, nth(args, 0)),
            Operation::Quote => Ok(nth(args, 0)),
            Operation::Lambda => lambda_of(p.name@, args),
            Operation::Define | Operation::Cond => Ok(Expression::Void),
        },
    }
}

/// The number of cells in the chain of pairs at `e`, saturating.
pub fn count_items(e: &Expression) -> (r: usize)
    ensures
        r == clamp(list_len(*e)),
{
    let mut n: usize = 0;
    let mut cur: &Expression = e;
    loop
        invariant
            clamp(list_len(*e)) == clamp((n + list_len(*cur)) as nat),
        decreases list_len(*cur),
    {
        match cur {
            Expression::Cons(c) => {
                if n == usize::MAX {
                    return n;
                }
                n = n + 1;
                cur = &c.cdr;
            },
            _ => {
                return n;
            },
        }
    }
}

fn nth_item(args: &Expression, i: usize) -> (r: Expression)
    ensures
        r == nth(*args, i as nat),
{
    let mut k = i;
    let mut cur: &Expression = args;
    loop
        invariant
            nth(*args, i as nat) == nth(*cur, k as nat),
        decreases k,
    {
        match cur {
            Expression::Cons(c) => {
                if k == 0 {
                    return copy_expression(&c.car);
                }
                k = k - 1;
                cur = &c.cdr;
            },
            _ => {
                return Expression::Void;
            },
        }
    }
}

/// The error for calling `p` with `count` arguments, if it does not take that many.
pub fn check_arity(p: &BuiltinProcedure, count: usize) -> (r: Option<EvaluationError>)
    ensures
        match r {
            Some(e) => arity_fault(*p, count) == Some(e@),
            None => arity_fault(*p, count) is None,
        },
{
    if p.variadic {
        if count < p.arity {
            Some(EvaluationError::WrongNumberOfVariableArguments(p.name.clone(), p.arity, count))
        } else {
            None
        }
    } else if count != p.arity {
        Some(EvaluationError::WrongNumberOfArguments(p.name.clone(), p.arity, count))
    } else {
        None
    }
}

/// Applies the builtin `p` to `args`.
pub fn apply_builtin(p: &BuiltinProcedure, args: &Expression) -> (r: Result<Expression, EvaluationError>)
    requires
        !is_special(p.operation),
    ensures
        result_view(r) == apply(*p, *args),
{
    let count = count_items(args);
    if let Some(e) = check_arity(p, count) {
        return Err(e);
    }
    match p.operation {
        Operation::Add | Operation::Multiply | Operation::Subtract | Operation::Divide => evaluate_arithmetic(
            &p.name,
            p.operation,
            args,
        ),
        Operation::Equals | Operation::LessThan | Operation::GreaterThan | Operation::LessThanOrEqual
        | Operation::GreaterThanOrEqual => evaluate_comparison(&p.name, p.operation, args),
        Operation::Eq => {
            let a = nth_item(args, 0);
            let b = nth_item(args, 1);
            Ok(Expression::Boolean(equal(&a, &b)))
        },
        Operation::Cons => {
            let a = nth_item(args, 0);
            let b = nth_item(args, 1);
            Ok(evaluate_cons(&a, &b))
        },
        Operation::Car => evaluate_car(&p.name, &nth_item(args, 0)),
        Operation::Cdr => evaluate_cdr(&p.name, &nth_item(args, 0)),
        Operation::Quote => Ok(nth_item(args, 0)),
        Operation::Lambda => evaluate_lambda(&p.name, args),
        Operation::Define | Operation::Cond => {
            assert(false);
            Ok(Expression::Void)
        },
    }
}

/// The builtins that every session starts with, by name: operation, arity
/// and whether more arguments are taken.
pub open spec fn standard_builtin(name: Seq<char>) -> Option<(Operation, usize, bool)> {
    if name == "+"@ { Some((Operation::Add, 1, true)) }
    else if name == "*"@ { Some((Operation::Multiply, 1, true)) }
    else if name == "-"@ { Some((Operation::Subtract, 1, true)) }
    else if name == "/"@ { Some((Operation::Divide, 1, true)) }
    else if name == "eq?"@ { Some((Operation::Eq, 2, false)) }
    else if name == "="@ { Some((Operation::Equals, 1, true)) }
    else if name == "<"@ { Some((Operation::LessThan, 1, true)) }
    else if name == ">"@ { Some((Operation::GreaterThan, 1, true)) }
    else if name == "<="@ { Some((Operation::LessThanOrEqual, 1, true)) }
    else if name == ">="@ { Some((Operation::GreaterThanOrEqual, 1, true)) }
    else if name == "quote"@ { Some((Operation::Quote, 1, false)) }
    else if name == "cons"@ { Some((Operation::Cons, 2, false)) }
    else if name == "car"@ { Some((Operation::Car, 1, false)) }
    else if name == "cdr"@ { Some((Operation::Cdr, 1, false)) }
    else if name == "define"@ { Some((Operation::Define, 2, false)) }
    else if name == "lambda"@ { Some((Operation::Lambda, 2, true)) }
    else if name == "cond"@ { Some((Operation::Cond, 0, true)) }
    else { None }
}

/// Whether `v` is the builtin `name` with the given operation and arity,
/// lasting one tick.
pub open spec fn provides(v: Option<Expression>, name: Seq<char>, spec_: (Operation, usize, bool)) -> bool {
    &&& v matches Some(Expression::Procedure(Procedure::BuiltinProcedure(b)))
    &&& b.name@ == name
    &&& b.operation == spec_.0
    &&& b.arity == spec_.1
    &&& b.variadic == spec_.2
    &&& b.ticks == 1
}

fn define_builtin(bindings: &mut Bindings, name: &str, operation: Operation, arity: usize, variadic: bool)
    ensures
        provides(final(bindings)@.lookup(name@), name@, (operation, arity, variadic)),
        forall|other: Seq<char>| other != name@ ==> #[trigger] final(bindings)@.lookup(other) == old(bindings)@.lookup(other),
{
    let builtin = BuiltinProcedure { name: String::from_str(name), operation, arity, variadic, ticks: 1 };
    let value = Expression::Procedure(Procedure::BuiltinProcedure(builtin));
    let ghost v = value;
    bindings.bind(name, value);
    proof {
        old(bindings)@.lemma_bind_lookup(name@, v, name@);
        assert forall|other: Seq<char>| other != name@ implies #[trigger] final(bindings)@.lookup(other) == old(bindings)@.lookup(other) by {
            old(bindings)@.lemma_bind_lookup(name@, v, other);
        }
    }
}

/// Installs the standard builtins: arithmetic, comparison, `eq?`, `quote`,
/// `cons`, `car`, `cdr`, `define`, `lambda` and `cond`.
pub fn define_builtins(bindings: &mut Bindings)
    ensures
        forall|name: Seq<char>| #[trigger] standard_builtin(name) is Some ==> provides(
            final(bindings)@.lookup(name),
            name,
            standard_builtin(name)->0,
        ),
        forall|name: Seq<char>| #[trigger] standard_builtin(name) is None ==> final(bindings)@.lookup(name)
            == old(bindings)@.lookup(name),
{
    define_builtin(bindings, "+", Operation::Add, 1, true);
    define_builtin(bindings, "*", Operation::Multiply, 1, true);
    define_builtin(bindings, "-", Operation::Subtract, 1, true);
    define_builtin(bindings, "/", Operation::Divide, 1, true);
    define_builtin(bindings, "eq?", Operation::Eq, 2, false);
    define_builtin(bindings, "=", Operation::Equals, 1, true);
    define_builtin(bindings, "<", Operation::LessThan, 1, true);
    define_builtin(bindings, ">", Operation::GreaterThan, 1, true);
    define_builtin(bindings, "<=", Operation::LessThanOrEqual, 1, true);
    define_builtin(bindings, ">=", Operation::GreaterThanOrEqual, 1, true);
    define_builtin(bindings, "quote", Operation::Quote, 1, false);
    define_builtin(bindings, "cons", Operation::Cons, 2, false);
    define_builtin(bindings, "car", Operation::Car, 1, false);
    define_builtin(bindings, "cdr", Operation::Cdr, 1, false);
    define_builtin(bindings, "define", Operation::Define, 2, false);
    define_builtin(bindings, "lambda", Operation::Lambda, 2, true);
    define_builtin(bindings, "cond", Operation::Cond, 0, true);
    proof {
        reveal_strlit("+");
        assert("+"@.len() == 1);
        assert("+"@[0] == '+');
        reveal_strlit("*");
        assert("*"@.len() == 1);
        assert("*"@[0] == '*');
        reveal_strlit("-");
        assert("-"@.len() == 1);
        assert("-"@[0] == '-');
        reveal_strlit("/");
        assert("/"@.len() == 1);
        assert("/"@[0] == '/');
        reveal_strlit("eq?");
        assert("eq?"@.len() == 3);
        assert("eq?"@[0] == 'e');
        assert("eq?"@[1] == 'q');
        assert("eq?"@[2] == '?');
        reveal_strlit("=");
        assert("="@.len() == 1);
        assert("="@[0] == '=');
        reveal_strlit("<");
        assert("<"@.len() == 1);
        assert("<"@[0] == '<');
        reveal_strlit(">");
        assert(">"@.len() == 1);
        assert(">"@[0] == '>');
        reveal_strlit("<=");
        assert("<="@.len() == 2);
        assert("<="@[0] == '<');
        assert("<="@[1] == '=');
        reveal_strlit(">=");
        assert(">="@.len() == 2);
        assert(">="@[0] == '>');
        assert(">="@[1] == '=');
        reveal_strlit("quote");
        assert("quote"@.len() == 5);
        assert("quote"@[0] == 'q');
        assert("quote"@[1] == 'u');
        assert("quote"@[2] == 'o');
        assert("quote"@[3] == 't');
        assert("quote"@[4] == 'e');
        reveal_strlit("cons");
        assert("cons"@.len() == 4);
        assert("cons"@[0] == 'c');
        assert("cons"@[1] == 'o');
        assert("cons"@[2] == 'n');
        assert("cons"@[3] == 's');
        reveal_strlit("car");
        assert("car"@.len() == 3);
        assert("car"@[0] == 'c');
        assert("car"@[1] == 'a');
        assert("car"@[2] == 'r');
        reveal_strlit("cdr");
        assert("cdr"@.len() == 3);
        assert("cdr"@[0] == 'c');
        assert("cdr"@[1] == 'd');
        assert("cdr"@[2] == 'r');
        reveal_strlit("define");
        assert("define"@.len() == 6);
        assert("define"@[0] == 'd');
        assert("define"@[1] == 'e');
        assert("define"@[2] == 'f');
        assert("define"@[3] == 'i');
        assert("define"@[4] == 'n');
        assert("define"@[5] == 'e');
        reveal_strlit("lambda");
        assert("lambda"@.len() == 6);
        assert("lambda"@[0] == 'l');
        assert("lambda"@[1] == 'a');
        assert("lambda"@[2] == 'm');
        assert("lambda"@[3] == 'b');
        assert("lambda"@[4] == 'd');
        assert("lambda"@[5] == 'a');
        reveal_strlit("cond");
        assert("cond"@.len() == 4);
        assert("cond"@[0] == 'c');
        assert("cond"@[1] == 'o');
        assert("cond"@[2] == 'n');
        assert("cond"@[3] == 'd');
    }
}

/// The elements of the proper list `list`; for anything else, the error that
/// `procedure_name` reports for an argument list that is not a list.
pub fn arg_vec(procedure_name: &str, list: &Expression) -> (r: Result<Vec<Expression>, EvaluationError>)
    ensures
        match list_items(*list) {
            Some(items) => r matches Ok(v) && v@ == items,
            None => r matches Err(e) && e@ == Fault::InvalidArgument(procedure_name@, "list"@, *list),
        },
{
    let mut out: Vec<Expression> = Vec::new();
    let mut cur: &Expression = list;
    loop
        invariant
            match list_items(*cur) {
                Some(rest) => list_items(*list) == Some(out@ + rest),
                None => list_items(*list) is None,
            },
        decreases list_len(*cur),
    {
        match cur {
            Expression::Cons(c) => {
                let ghost before = out@;
                out.push(copy_expression(&c.car));
                proof {
                    if let Some(rest) = list_items(*c.cdr) {
                        assert(before + seq![*c.car].add(rest) =~= out@ + rest);
                    }
                }
                cur = &c.cdr;
            },
            Expression::Null => {
                assert(out@ + Seq::<Expression>::empty() =~= out@);
                return Ok(out);
            },
            _ => {
                return Err(EvaluationError::invalid_argument(procedure_name, "list", list));
            },
        }
    }
}

/// The proper list of `args`, in order.
pub fn vec_arg(args: Vec<Expression>) -> (r: Expression)
    ensures
        r == list_of(args@),
{
    let ghost all = args@;
    let mut rest = args;
    let mut list = Expression::Null;
    assert(all.subrange(all.len() as int, all.len() as int) =~= Seq::<Expression>::empty());
    while rest.len() > 0
        invariant
            rest@.len() <= all.len(),
            rest@ == all.subrange(0, rest@.len() as int),
            list == list_of(all.subrange(rest@.len() as int, all.len() as int)),
        decreases rest@.len(),
    {
        let arg = rest.pop().unwrap();
        let ghost k = rest@.len() as int;
        assert(all.subrange(k, all.len() as int).drop_first() =~= all.subrange(k + 1, all.len() as int));
        list = Expression::Cons(Cons { car: Box::new(arg), cdr: Box::new(list) });
        assert(rest@ =~= all.subrange(0, k));
    }
    assert(all.subrange(0, all.len() as int) =~= all);
    list
}

} // verus!
