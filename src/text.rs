//! Printed forms: the display form, the outer representation, error messages.
use vstd::prelude::*;
use crate::error::{EvaluationError, Fault};
use crate::types::{Expression, Number, Procedure};

verus! {

pub open spec fn digit_char(d: nat) -> char {
    if d == 0 { '0' }
    else if d == 1 { '1' }
    else if d == 2 { '2' }
    else if d == 3 { '3' }
    else if d == 4 { '4' }
    else if d == 5 { '5' }
    else if d == 6 { '6' }
    else if d == 7 { '7' }
    else if d == 8 { '8' }
    else { '9' }
}

/// The decimal digits of `n`, most significant first, without leading zeros.
pub open spec fn digits(n: nat) -> Seq<char>
    decreases n,
{
    if n < 10 {
        seq![digit_char(n)]
    } else {
        digits(n / 10).push(digit_char(n % 10))
    }
}

/// `n` in decimal, with a leading `-` when negative.
pub open spec fn decimal(n: int) -> Seq<char> {
    if n < 0 {
        seq!['-'].add(digits((-n) as nat))
    } else {
        digits(n as nat)
    }
}

/// The display form of `e`.
pub open spec fn display(e: Expression) -> Seq<char>
    decreases e, 0nat,
{
    match e {
        Expression::Symbol(s) => s@,
        Expression::Cons(c) => "("@ + display(*c.car) + list_tail(*c.cdr),
        Expression::Number(Number::Integer(n)) => decimal(n as int),
        Expression::Boolean(b) => if b { "#t"@ } else { "#f"@ },
        Expression::Procedure(Procedure::LambdaProcedure(_)) => "#<procedure>"@,
        Expression::Procedure(Procedure::BuiltinProcedure(b)) => "#<procedure:"@ + b.name@ + ">"@,
        Expression::Null => "'()"@,
        Expression::Void => "#<void>"@,
    }
}

/// The display form of the rest of a list after its first element: the
/// remaining elements, a ` . ` before an improper end, and the closing paren.
pub open spec fn list_tail(rest: Expression) -> Seq<char>
    decreases rest, 1nat,
{
    match rest {
        Expression::Cons(c) => " "@ + display(*c.car) + list_tail(*c.cdr),
        Expression::Null => ")"@,
        _ => " . "@ + display(rest) + ")"@,
    }
}

/// The printed form of `e` that reads back as an equal value: symbols and
/// lists are quoted.
pub open spec fn outer(e: Expression) -> Seq<char> {
    match e {
        Expression::Symbol(s) => "'"@ + s@,
        Expression::Cons(_) => "'"@ + display(e),
        _ => display(e),
    }
}

/// The human-readable message of an error.
pub open spec fn message(f: Fault) -> Seq<char> {
    match f {
        Fault::WrongNumberOfArguments(name, expected, actual) => "wrong number of arguments for "@ + name
            + ": expected "@ + decimal(expected as int) + ", got "@ + decimal(actual as int),
        Fault::WrongNumberOfVariableArguments(name, expected, actual) => "wrong number of arguments for "@
            + name + ": expected "@ + decimal(expected as int) + " or more, got "@ + decimal(actual as int),
        Fault::InvalidArgument(name, expected, actual) => "invalid argument for "@ + name + ": expected "@
            + expected + ", got "@ + display(actual),
        Fault::UndefinedSymbol(s) => "undefined symbol "@ + s,
        Fault::DivideByZero(Number::Integer(n)) => "attempted to divide "@ + decimal(n as int) + " by 0"@,
        Fault::NotAProcedure(v) => "expected a procedure, given "@ + outer(v),
    }
}

fn digit_text(d: u64) -> (r: &'static str)
    requires
        d < 10,
    ensures
        r@ == seq![digit_char(d as nat)],
{
    proof {
        reveal_strlit("0");
        reveal_strlit("1");
        reveal_strlit("2");
        reveal_strlit("3");
        reveal_strlit("4");
        reveal_strlit("5");
        reveal_strlit("6");
        reveal_strlit("7");
        reveal_strlit("8");
        reveal_strlit("9");
    }
    if d == 0 {
        "0"
    } else if d == 1 {
        "1"
    } else if d == 2 {
        "2"
    } else if d == 3 {
        "3"
    } else if d == 4 {
        "4"
    } else if d == 5 {
        "5"
    } else if d == 6 {
        "6"
    } else if d == 7 {
        "7"
    } else if d == 8 {
        "8"
    } else {
        assert(seq!['9'] =~= "9"@);
        "9"
    }
}

fn write_digits(out: &mut String, n: u64)
    ensures
        final(out)@ == old(out)@ + digits(n as nat),
    decreases n,
{
    if n >= 10 {
        write_digits(out, n / 10);
    }
    out.append(digit_text(n % 10));
    assert(final(out)@ =~= old(out)@ + digits(n as nat));
}

fn write_decimal(out: &mut String, n: i64)
    ensures
        final(out)@ == old(out)@ + decimal(n as int),
{
    if n < 0 {
        out.append("-");
        proof {
            reveal_strlit("-");
        }
        let m: u64 = if n == i64::MIN {
            9223372036854775808u64
        } else {
            (-n) as u64
        };
        write_digits(out, m);
        assert(final(out)@ =~= old(out)@ + decimal(n as int));
    } else {
        write_digits(out, n as u64);
    }
}

fn write_count(out: &mut String, n: usize)
    ensures
        final(out)@ == old(out)@ + decimal(n as int),
{
    write_digits(out, n as u64);
}

/// `n` in decimal.
pub fn integer_text(n: i64) -> (r: String)
    ensures
        r@ == decimal(n as int),
{
    let mut out = String::new();
    write_decimal(&mut out, n);
    assert(out@ =~= decimal(n as int));
    out
}

fn write_display(out: &mut String, e: &Expression)
    ensures
        final(out)@ == old(out)@ + display(*e),
    decreases e, 0nat,
{
    match e {
        Expression::Symbol(s) => {
            out.append(s.as_str());
        },
        Expression::Cons(c) => {
            out.append("(");
            write_display(out, &c.car);
            write_list_tail(out, &c.cdr);
        },
        Expression::Number(Number::Integer(n)) => {
            write_decimal(out, *n as i64);
        },
        Expression::Boolean(b) => {
            if *b {
                out.append("#t");
            } else {
                out.append("#f");
            }
        },
        Expression::Procedure(Procedure::LambdaProcedure(_)) => {
            out.append("#<procedure>");
        },
        Expression::Procedure(Procedure::BuiltinProcedure(b)) => {
            out.append("#<procedure:");
            out.append(b.name.as_str());
            out.append(">");
        },
        Expression::Null => {
            out.append("'()");
        },
        Expression::Void => {
            out.append("#<void>");
        },
    }
    assert(final(out)@ =~= old(out)@ + display(*e));
}

fn write_list_tail(out: &mut String, rest: &Expression)
    ensures
        final(out)@ == old(out)@ + list_tail(*rest),
    decreases rest, 1nat,
{
    match rest {
        Expression::Cons(c) => {
            out.append(" ");
            write_display(out, &c.car);
            write_list_tail(out, &c.cdr);
        },
        Expression::Null => {
            out.append(")");
        },
        _ => {
            out.append(" . ");
            write_display(out, rest);
            out.append(")");
        },
    }
    assert(final(out)@ =~= old(out)@ + list_tail(*rest));
}

impl Expression {
    /// The display form: how the value prints inside other values.
    pub fn display(&self) -> (r: String)
        ensures
            r@ == display(*self),
    {
        let mut out = String::new();
        write_display(&mut out, self);
        assert(out@ =~= display(*self));
        out
    }

    /// The form that reads back as an equal value: symbols and lists quoted.
    pub fn outer_representation(&self) -> (r: String)
        ensures
            r@ == outer(*self),
    {
        let mut out = String::new();
        match self {
            Expression::Symbol(_) | Expression::Cons(_) => {
                out.append("'");
            },
            _ => {},
        }
        write_display(&mut out, self);
        assert(out@ =~= outer(*self));
        out
    }
}

impl EvaluationError {
    /// The human-readable message of this error.
    pub fn message(&self) -> (r: String)
        ensures
            r@ == message(self@),
    {
        let mut out = String::new();
        match self {
            EvaluationError::WrongNumberOfArguments(name, expected, actual) => {
                out.append("wrong number of arguments for ");
                out.append(name.as_str());
                out.append(": expected ");
                write_count(&mut out, *expected);
                out.append(", got ");
                write_count(&mut out, *actual);
            },
            EvaluationError::WrongNumberOfVariableArguments(name, expected, actual) => {
                out.append("wrong number of arguments for ");
                out.append(name.as_str());
                out.append(": expected ");
                write_count(&mut out, *expected);
                out.append(" or more, got ");
                write_count(&mut out, *actual);
            },
            EvaluationError::InvalidArgument(name, expected, actual) => {
                out.append("invalid argument for ");
                out.append(name.as_str());
                out.append(": expected ");
                out.append(expected.as_str());
                out.append(", got ");
                write_display(&mut out, actual);
            },
            EvaluationError::UndefinedSymbol(s) => {
                out.append("undefined symbol ");
                out.append(s.as_str());
            },
            EvaluationError::DivideByZero(Number::Integer(n)) => {
                out.append("attempted to divide ");
                write_decimal(&mut out, *n as i64);
                out.append(" by 0");
            },
            EvaluationError::NotAProcedure(v) => {
                out.append("expected a procedure, given ");
                out.append(v.outer_representation().as_str());
            },
        }
        assert(out@ =~= message(self@));
        out
    }
}

} // verus!
