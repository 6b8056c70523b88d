//! The value model: expressions, cons cells, numbers and procedures, with
//! copies proved equal to their originals.
use vstd::prelude::*;

verus! {

/// A number of the language: only fixed-width integers.
#[derive(Debug, Clone, Copy, PartialEq, Eq, Structural)]
pub enum Number {
    Integer(i32),
}

/// A cons cell: the pair `(car . cdr)`.
#[derive(Debug, PartialEq, Eq)]
pub struct Cons {
    pub car: Box<Expression>,
    pub cdr: Box<Expression>,
}

/// What a builtin procedure does when it is invoked.
#[derive(Debug, Clone, Copy, PartialEq, Eq, Structural)]
pub enum Operation {
    Add,
    Multiply,
    Subtract,
    Divide,
    Equals,
    LessThan,
    GreaterThan,
    LessThanOrEqual,
    GreaterThanOrEqual,
    Eq,
    Cons,
    Car,
    Cdr,
    Quote,
    Define,
    Lambda,
    Cond,
}

/// A procedure implemented by the runtime itself.
/// It takes `arity` arguments, or at least `arity` when `variadic`, and its
/// call lasts `ticks` ticks of the machine before it produces its value.
#[derive(Debug, PartialEq, Eq)]
pub struct BuiltinProcedure {
    pub name: String,
    pub operation: Operation,
    pub arity: usize,
    pub variadic: bool,
    pub ticks: u32,
}

/// A procedure written in the language.
/// `formals` is a list of parameter symbols, possibly ended by a rest symbol
/// in place of the empty list; `body` is the list of body expressions.
#[derive(Debug, PartialEq, Eq)]
pub struct LambdaProcedure {
    pub formals: Box<Expression>,
    pub body: Box<Expression>,
}

#[derive(Debug, PartialEq, Eq)]
pub enum Procedure {
    LambdaProcedure(LambdaProcedure),
    BuiltinProcedure(BuiltinProcedure),
}

/// The universal value and syntax tree of the language.
#[derive(Debug, PartialEq, Eq)]
pub enum Expression {
    Symbol(String),
    Cons(Cons),
    Number(Number),
    Boolean(bool),
    Procedure(Procedure),
    Null,
    Void,
}

/// The pair `(car . cdr)` as a value.
pub open spec fn pair(car: Expression, cdr: Expression) -> Expression {
    Expression::Cons(Cons { car: Box::new(car), cdr: Box::new(cdr) })
}

/// The proper list holding `items` in order.
pub open spec fn list_of(items: Seq<Expression>) -> Expression
    decreases items.len(),
{
    if items.len() == 0 {
        Expression::Null
    } else {
        pair(items[0], list_of(items.drop_first()))
    }
}

/// The elements of `e` when it is a proper list, `None` when it is not.
pub open spec fn list_items(e: Expression) -> Option<Seq<Expression>>
    decreases e,
{
    match e {
        Expression::Null => Some(Seq::empty()),
        Expression::Cons(c) => match list_items(*c.cdr) {
            Some(rest) => Some(seq![*c.car].add(rest)),
            None => None,
        },
        _ => None,
    }
}

/// Whether two values are equal, strings compared by their characters.
pub open spec fn same(a: Expression, b: Expression) -> bool
    decreases a,
{
    match (a, b) {
        (Expression::Symbol(x), Expression::Symbol(y)) => x@ == y@,
        (Expression::Cons(x), Expression::Cons(y)) => same(*x.car, *y.car) && same(*x.cdr, *y.cdr),
        (Expression::Number(x), Expression::Number(y)) => x == y,
        (Expression::Boolean(x), Expression::Boolean(y)) => x == y,
        (Expression::Procedure(Procedure::BuiltinProcedure(x)), Expression::Procedure(Procedure::BuiltinProcedure(y))) => {
            &&& x.name@ == y.name@
            &&& x.operation == y.operation
            &&& x.arity == y.arity
            &&& x.variadic == y.variadic
            &&& x.ticks == y.ticks
        },
        (Expression::Procedure(Procedure::LambdaProcedure(x)), Expression::Procedure(Procedure::LambdaProcedure(y))) => {
            same(*x.formals, *y.formals) && same(*x.body, *y.body)
        },
        (Expression::Null, Expression::Null) => true,
        (Expression::Void, Expression::Void) => true,
        _ => false,
    }
}

/// A copy of `e`, equal to it.
pub fn copy_expression(e: &Expression) -> (r: Expression)
    ensures
        r == *e,
    decreases e,
{
    match e {
        Expression::Symbol(s) => Expression::Symbol(s.clone()),
        Expression::Cons(c) => Expression::Cons(Cons {
            car: Box::new(copy_expression(&c.car)),
            cdr: Box::new(copy_expression(&c.cdr)),
        }),
        Expression::Number(n) => Expression::Number(*n),
        Expression::Boolean(b) => Expression::Boolean(*b),
        Expression::Procedure(Procedure::LambdaProcedure(l)) => Expression::Procedure(
            Procedure::LambdaProcedure(LambdaProcedure {
                formals: Box::new(copy_expression(&l.formals)),
                body: Box::new(copy_expression(&l.body)),
            }),
        ),
        Expression::Procedure(Procedure::BuiltinProcedure(b)) => Expression::Procedure(
            Procedure::BuiltinProcedure(b.clone()),
        ),
        Expression::Null => Expression::Null,
        Expression::Void => Expression::Void,
    }
}

impl Clone for BuiltinProcedure {
    fn clone(&self) -> (r: Self)
        ensures
            r == *self,
    {
        BuiltinProcedure {
            name: self.name.clone(),
            operation: self.operation,
            arity: self.arity,
            variadic: self.variadic,
            ticks: self.ticks,
        }
    }
}

impl Clone for Expression {
    fn clone(&self) -> (r: Self)
        ensures
            r == *self,
    {
        copy_expression(self)
    }
}

impl Clone for Cons {
    fn clone(&self) -> (r: Self)
        ensures
            r == *self,
    {
        Cons { car: Box::new(copy_expression(&self.car)), cdr: Box::new(copy_expression(&self.cdr)) }
    }
}

impl Clone for LambdaProcedure {
    fn clone(&self) -> (r: Self)
        ensures
            r == *self,
    {
        LambdaProcedure {
            formals: Box::new(copy_expression(&self.formals)),
            body: Box::new(copy_expression(&self.body)),
        }
    }
}

impl Clone for Procedure {
    fn clone(&self) -> (r: Self)
        ensures
            r == *self,
    {
        match self {
            Procedure::LambdaProcedure(l) => Procedure::LambdaProcedure(l.clone()),
            Procedure::BuiltinProcedure(b) => Procedure::BuiltinProcedure(b.clone()),
        }
    }
}

/// The names of the leading parameter symbols of `formals`.
pub open spec fn parameter_names(formals: Expression) -> Seq<Seq<char>>
    decreases formals,
{
    match formals {
        Expression::Cons(c) => match *c.car {
            Expression::Symbol(s) => seq![s@].add(parameter_names(*c.cdr)),
            _ => Seq::empty(),
        },
        _ => Seq::empty(),
    }
}

impl Procedure {
    /// The names of a lambda's fixed parameters, in order; builtins take
    /// their arguments by position and have none.
    pub fn argnames(&self) -> (r: Vec<String>)
        ensures
            r@.map_values(|name: String| name@) == match self {
                Procedure::LambdaProcedure(l) => parameter_names(*l.formals),
                Procedure::BuiltinProcedure(_) => Seq::empty(),
            },
    {
        let mut names: Vec<String> = Vec::new();
        if let Procedure::LambdaProcedure(l) = self {
            let mut cur: &Expression = &l.formals;
            loop
                invariant
                    names@.map_values(|name: String| name@) + parameter_names(*cur) == parameter_names(*l.formals),
                ensures
                    names@.map_values(|name: String| name@) == parameter_names(*l.formals),
                decreases *cur,
            {
                let ghost before = names@;
                match cur {
                    Expression::Cons(c) => match &*c.car {
                        Expression::Symbol(s) => {
                            names.push(s.clone());
                            assert(names@.map_values(|name: String| name@) =~= before.map_values(|name: String| name@).push(s@));
                            assert(names@.map_values(|name: String| name@) + parameter_names(*c.cdr)
                                =~= before.map_values(|name: String| name@) + parameter_names(*cur));
                            cur = &c.cdr;
                        },
                        _ => {
                            assert(names@.map_values(|name: String| name@) + parameter_names(*cur) =~= names@.map_values(|name: String| name@));
                            break;
                        },
                    },
                    _ => {
                        assert(names@.map_values(|name: String| name@) + parameter_names(*cur) =~= names@.map_values(|name: String| name@));
                        break;
                    },
                }
            }
        } else {
            assert(names@.map_values(|name: String| name@) =~= Seq::<Seq<char>>::empty());
        }
        names
    }
}

impl Cons {
    /// The cell `(car . cdr)`, holding copies of both.
    pub fn new(car: &Expression, cdr: &Expression) -> (r: Cons)
        ensures
            *r.car == *car,
            *r.cdr == *cdr,
    {
        Cons { car: Box::new(copy_expression(car)), cdr: Box::new(copy_expression(cdr)) }
    }
}

} // verus!
