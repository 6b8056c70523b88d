//! The evaluation machine: a stack of frames advanced one tick at a time.
//! `Machine::step` states what a tick does; `State::tick` is proved to do it.
use vstd::prelude::*;
use crate::bindings::{layer_view, BindingLayer, Bindings, Environment};
use crate::builtins::{apply, apply_builtin, arity_fault, check_arity, clamp, count_items, is_special, list_len, nth, result_view};
use crate::error::{EvaluationError, Fault};
use crate::types::{copy_expression, pair, BuiltinProcedure, Cons, Expression, LambdaProcedure, Operation, Procedure};

verus! {

/// A unit of computation in progress. Frames that wait for a value stand
/// below the frame that computes it. A frame marked `tail` owns the innermost
/// environment layer: it releases the layer when it produces its value.
#[derive(Debug)]
#[allow(inconsistent_fields)]
pub enum Frame {
    /// Reduce `expression` to a value.
    Evaluate { expression: Expression, tail: bool },
    /// Wait for the value of a call's head, then call it with `arguments`.
    Apply { arguments: Expression, tail: bool },
    /// Evaluate the `remaining` arguments left to right; `values` holds the
    /// values so far, the latest first.
    ArgParse { procedure: Procedure, values: Expression, remaining: Expression, tail: bool },
    /// Wait out the builtin's declared ticks, then apply it to `arguments`.
    BuiltinCall { procedure: BuiltinProcedure, elapsed: u32, arguments: Expression, tail: bool },
    /// Evaluate each expression of `body` in turn; the last gives the value.
    Body { body: Expression, tail: bool },
    /// Wait for a value, then, on its own tick, bind it to `name`.
    Define { name: String, value: Option<Expression>, tail: bool },
    /// Try the clauses of a `cond` in order, waiting for the test of the
    /// first. A clause with no expressions after its test gives the test's
    /// value, which the frame holds until its own tick hands it on.
    Cond { clauses: Expression, value: Option<Expression>, tail: bool },
}

/// The machine as mathematical values. `base` is the number of call-local
/// layers that the environment had when the running evaluation began.
pub struct Machine {
    pub env: Environment,
    pub frames: Seq<Frame>,
    pub outcome: Option<Result<Expression, Fault>>,
    pub base: nat,
}

/// The end of the chain of pairs at `e`: `Null` for a proper list.
pub open spec fn list_end(e: Expression) -> Expression
    decreases e,
{
    match e {
        Expression::Cons(c) => list_end(*c.cdr),
        _ => e,
    }
}

/// The list `values` reversed onto `acc`.
pub open spec fn reverse_onto(values: Expression, acc: Expression) -> Expression
    decreases values,
{
    match values {
        Expression::Cons(c) => reverse_onto(*c.cdr, pair(*c.car, acc)),
        _ => acc,
    }
}

pub open spec fn is_symbol(e: Expression, text: Seq<char>) -> bool {
    e matches Expression::Symbol(s) && s@ == text
}

/// The name that errors give for a procedure.
pub open spec fn procedure_name(p: Procedure) -> Seq<char> {
    match p {
        Procedure::BuiltinProcedure(b) => b.name@,
        Procedure::LambdaProcedure(_) => "#<procedure>"@,
    }
}

/// The error for calling `p` with `count` arguments, if it does not take that many.
/// A lambda takes one argument per parameter symbol, and any number more when
/// its formals end in a rest symbol.
pub open spec fn call_arity_fault(p: Procedure, count: usize) -> Option<Fault> {
    match p {
        Procedure::BuiltinProcedure(b) => arity_fault(b, count),
        Procedure::LambdaProcedure(l) => {
            let fixed = clamp(list_len(*l.formals));
            if list_end(*l.formals) is Null {
                if count != fixed {
                    Some(Fault::WrongNumberOfArguments("#<procedure>"@, fixed, count))
                } else {
                    None
                }
            } else if count < fixed {
                Some(Fault::WrongNumberOfVariableArguments("#<procedure>"@, fixed, count))
            } else {
                None
            }
        },
    }
}

/// The layer that a lambda with `formals` called with `args` opens: each
/// parameter bound to its argument, and a rest symbol to the remaining list.
pub open spec fn parameter_bindings(formals: Expression, args: Expression) -> Seq<(Seq<char>, Expression)>
    decreases formals,
{
    match formals {
        Expression::Cons(f) => match (*f.car, args) {
            (Expression::Symbol(s), Expression::Cons(a)) => seq![(s@, *a.car)].add(
                parameter_bindings(*f.cdr, *a.cdr),
            ),
            _ => Seq::empty(),
        },
        Expression::Symbol(s) => seq![(s@, args)],
        _ => Seq::empty(),
    }
}

/// What is wrong with one clause of a `cond`; `last` tells whether it is the last.
pub open spec fn clause_fault(name: Seq<char>, clause: Expression, last: bool) -> Option<Fault> {
    if !(list_end(clause) is Null) {
        Some(Fault::InvalidArgument(name, "list"@, clause))
    } else {
        match clause {
            Expression::Cons(c) => if last && is_symbol(*c.car, "else"@) && !(*c.cdr is Cons) {
                Some(Fault::InvalidArgument(name, "missing expressions in else clause"@, clause))
            } else {
                None
            },
            _ => Some(Fault::InvalidArgument(name, "clause is not a test-value pair"@, Expression::Null)),
        }
    }
}

/// What is wrong with the clauses of a `cond`: the first faulty clause.
pub open spec fn cond_fault(name: Seq<char>, clauses: Expression) -> Option<Fault>
    decreases clauses,
{
    match clauses {
        Expression::Cons(c) => match clause_fault(name, *c.car, !(*c.cdr is Cons)) {
            Some(f) => Some(f),
            None => cond_fault(name, *c.cdr),
        },
        _ => None,
    }
}

/// The expressions that a clause selects: those after its test, and after
/// a `=>` that follows the test.
pub open spec fn branch(clause: Expression) -> Expression {
    match clause {
        Expression::Cons(c) => match *c.cdr {
            Expression::Cons(d) => if is_symbol(*d.car, "=>"@) {
                *d.cdr
            } else {
                *c.cdr
            },
            other => other,
        },
        _ => Expression::Null,
    }
}

/// Whether the frame owns the innermost environment layer.
pub open spec fn tail_of(f: Frame) -> bool {
    match f {
        Frame::Evaluate { tail, .. } => tail,
        Frame::Apply { tail, .. } => tail,
        Frame::ArgParse { tail, .. } => tail,
        Frame::BuiltinCall { tail, .. } => tail,
        Frame::Body { tail, .. } => tail,
        Frame::Define { tail, .. } => tail,
        Frame::Cond { tail, .. } => tail,
    }
}

/// The number of frames of `frames` that own a layer.
pub open spec fn owned(frames: Seq<Frame>) -> nat
    decreases frames.len(),
{
    if frames.len() == 0 {
        0
    } else {
        owned(frames.drop_last()) + if tail_of(frames.last()) { 1nat } else { 0nat }
    }
}

/// The number of arguments a procedure takes, or at least takes.
pub open spec fn fixed_arity(p: Procedure) -> usize {
    match p {
        Procedure::BuiltinProcedure(b) => b.arity,
        Procedure::LambdaProcedure(l) => clamp(list_len(*l.formals)),
    }
}

/// Whether a procedure takes more arguments than `fixed_arity`.
pub open spec fn takes_more(p: Procedure) -> bool {
    match p {
        Procedure::BuiltinProcedure(b) => b.variadic,
        Procedure::LambdaProcedure(l) => !(list_end(*l.formals) is Null),
    }
}

/// The error that a call finds while evaluating its arguments: a fixed
/// arity is exceeded once the fixed number of values is in, and a count
/// short of the arity shows when the arguments run out.
pub open spec fn arity_failure(procedure: Procedure, values: Expression, remaining: Expression) -> Option<Fault> {
    let total = clamp(list_len(values) + list_len(remaining));
    let settled = !(remaining is Cons) || (!takes_more(procedure) && clamp(list_len(values)) >= fixed_arity(
        procedure,
    ));
    if settled {
        call_arity_fault(procedure, total)
    } else {
        None
    }
}

impl Machine {
    pub open spec fn with_frames(self, frames: Seq<Frame>) -> Machine {
        Machine { env: self.env, frames, outcome: self.outcome, base: self.base }
    }

    pub open spec fn with_env(self, env: Environment) -> Machine {
        Machine { env, frames: self.frames, outcome: self.outcome, base: self.base }
    }

    pub open spec fn push(self, f: Frame) -> Machine {
        self.with_frames(self.frames.push(f))
    }

    /// Ends evaluation with the error `f`. The calls in progress are
    /// abandoned, and the layers they opened are closed: the environment
    /// goes back to the depth it had when evaluation began.
    pub open spec fn fail(self, f: Fault) -> Machine {
        Machine { env: self.env.truncate(self.base), frames: self.frames, outcome: Some(Err(f)), base: self.base }
    }

    /// Releases the innermost layer when `tail` says so.
    pub open spec fn release(self, tail: bool) -> Machine {
        if tail {
            self.with_env(self.env.pop())
        } else {
            self
        }
    }

    /// Starts the call of `callee` with the unevaluated `args`: checks that
    /// `args` is a list, and pushes the frames that carry the call out. The
    /// special forms check their arity at once; other calls check it while
    /// their arguments are evaluated.
    pub open spec fn start_call(self, callee: Expression, args: Expression, tail: bool) -> Machine {
        match callee {
            Expression::Procedure(p) => if !(list_end(args) is Null) {
                self.fail(Fault::InvalidArgument(procedure_name(p), "list"@, args))
            } else {
                match p {
                    Procedure::BuiltinProcedure(b) => if b.operation == Operation::Quote || b.operation
                        == Operation::Lambda || is_special(b.operation) {
                        match arity_fault(b, clamp(list_len(args))) {
                            Some(f) => self.fail(f),
                            None => match b.operation {
                                Operation::Define => match nth(args, 0) {
                                    Expression::Symbol(s) => self.push(Frame::Define { name: s, value: None, tail }).push(
                                        Frame::Evaluate { expression: nth(args, 1), tail: false },
                                    ),
                                    other => self.fail(Fault::InvalidArgument(b.name@, "symbol"@, other)),
                                },
                                Operation::Cond => match cond_fault(b.name@, args) {
                                    Some(f) => self.fail(f),
                                    None => self.push(Frame::Cond { clauses: args, value: None, tail }),
                                },
                                _ => self.push(Frame::BuiltinCall { procedure: b, elapsed: 0, arguments: args, tail }),
                            },
                        }
                    } else {
                        self.push(Frame::ArgParse { procedure: p, values: Expression::Null, remaining: args, tail })
                    },
                    Procedure::LambdaProcedure(_) => self.push(
                        Frame::ArgParse { procedure: p, values: Expression::Null, remaining: args, tail },
                    ),
                }
            },
            _ => self.fail(Fault::NotAProcedure(callee)),
        }
    }

    /// Calls `p` on the evaluated `args`. A lambda call releases its caller's
    /// layer first when in tail position, so that a tail call does not deepen
    /// the environment, and opens a layer for its parameters.
    pub open spec fn invoke(self, p: Procedure, args: Expression, tail: bool) -> Machine {
        match p {
            Procedure::BuiltinProcedure(b) => self.push(
                Frame::BuiltinCall { procedure: b, elapsed: 0, arguments: args, tail },
            ),
            Procedure::LambdaProcedure(l) => {
                let m = self.release(tail);
                m.with_env(m.env.push(parameter_bindings(*l.formals, args))).push(
                    Frame::Body { body: *l.body, tail: true },
                )
            },
        }
    }

    /// Hands the value `v` to the frame directly below the one that computed
    /// it, or makes it the outcome when no frame is left. Only that frame
    /// changes.
    pub open spec fn deliver(self, v: Expression, tail: bool) -> Machine {
        let m = self.release(tail);
        if m.frames.len() == 0 {
            Machine { env: m.env, frames: m.frames, outcome: Some(Ok(v)), base: m.base }
        } else {
            let rest = m.with_frames(m.frames.drop_last());
            match m.frames.last() {
                Frame::ArgParse { procedure, values, remaining, tail: t } => rest.push(
                    Frame::ArgParse { procedure, values: pair(v, values), remaining, tail: t },
                ),
                Frame::Cond { clauses, value: None, tail: t } => match clauses {
                    Expression::Cons(c) => if v == Expression::Boolean(false) {
                        rest.push(Frame::Cond { clauses: *c.cdr, value: None, tail: t })
                    } else if branch(*c.car) is Cons {
                        rest.push(Frame::Body { body: branch(*c.car), tail: t })
                    } else {
                        rest.push(Frame::Cond { clauses, value: Some(v), tail: t })
                    },
                    _ => m,
                },
                Frame::Define { name, value: None, tail: t } => rest.push(Frame::Define { name, value: Some(v), tail: t }),
                Frame::Apply { arguments, tail: t } => rest.start_call(v, arguments, t),
                _ => m,
            }
        }
    }

    /// One tick: pops the top frame and carries out its step. Once the
    /// outcome is set, when no frame is left, or when the top frame still
    /// waits for a value, a tick changes nothing.
    pub open spec fn step(self) -> Machine {
        if self.outcome is Some || self.frames.len() == 0 {
            self
        } else {
            let m = self.with_frames(self.frames.drop_last());
            match self.frames.last() {
                Frame::Evaluate { expression, tail } => match expression {
                    Expression::Symbol(s) => match m.env.lookup(s@) {
                        Some(v) => m.deliver(v, tail),
                        None => m.fail(Fault::UndefinedSymbol(s@)),
                    },
                    Expression::Cons(c) => match *c.car {
                        Expression::Symbol(s) => match m.env.lookup(s@) {
                            Some(v) => m.start_call(v, *c.cdr, tail),
                            None => m.fail(Fault::UndefinedSymbol(s@)),
                        },
                        Expression::Cons(_) => m.push(Frame::Apply { arguments: *c.cdr, tail }).push(
                            Frame::Evaluate { expression: *c.car, tail: false },
                        ),
                        head => m.start_call(head, *c.cdr, tail),
                    },
                    other => m.deliver(other, tail),
                },
                Frame::ArgParse { procedure, values, remaining, tail } => {
                    if arity_failure(procedure, values, remaining) is Some {
                        m.fail(arity_failure(procedure, values, remaining)->0)
                    } else {
                        match remaining {
                            Expression::Cons(c) => m.push(
                                Frame::ArgParse { procedure, values, remaining: *c.cdr, tail },
                            ).push(Frame::Evaluate { expression: *c.car, tail: false }),
                            _ => m.invoke(procedure, reverse_onto(values, Expression::Null), tail),
                        }
                    }
                },
                Frame::BuiltinCall { procedure, elapsed, arguments, tail } => {
                    if elapsed < u32::MAX && elapsed + 1 < procedure.ticks {
                        m.push(Frame::BuiltinCall { procedure, elapsed: (elapsed + 1) as u32, arguments, tail })
                    } else if is_special(procedure.operation) {
                        self
                    } else {
                        match apply(procedure, arguments) {
                            Ok(v) => m.deliver(v, tail),
                            Err(f) => m.fail(f),
                        }
                    }
                },
                Frame::Body { body, tail } => match body {
                    Expression::Cons(c) => if *c.cdr is Cons {
                        m.push(Frame::Body { body: *c.cdr, tail }).push(
                            Frame::Evaluate { expression: *c.car, tail: false },
                        )
                    } else {
                        m.push(Frame::Evaluate { expression: *c.car, tail })
                    },
                    _ => m.deliver(Expression::Void, tail),
                },
                Frame::Cond { clauses, value, tail } => match value {
                    Some(v) => m.deliver(v, tail),
                    None => match clauses {
                        Expression::Cons(c) => match *c.car {
                            Expression::Cons(clause) => if is_symbol(*clause.car, "else"@) && !(*c.cdr is Cons) {
                                m.push(Frame::Body { body: *clause.cdr, tail })
                            } else {
                                m.push(Frame::Cond { clauses, value: None, tail }).push(
                                    Frame::Evaluate { expression: *clause.car, tail: false },
                                )
                            },
                            _ => m.push(Frame::Cond { clauses: *c.cdr, value: None, tail }),
                        },
                        _ => m.deliver(Expression::Void, tail),
                    },
                },
                Frame::Define { name, value, tail } => match value {
                    Some(v) => m.with_env(m.env.bind(name@, v)).deliver(Expression::Void, tail),
                    None => self,
                },
                Frame::Apply { .. } => self,
            }
        }
    }

    /// The machine after `n` ticks.
    pub open spec fn run(self, n: nat) -> Machine
        decreases n,
    {
        if n == 0 {
            self
        } else {
            self.step().run((n - 1) as nat)
        }
    }
}

/// The evaluation machine: the environment, the stack of frames (top last),
/// once evaluation has ended its outcome, and the depth of the environment
/// when evaluation began.
#[derive(Debug)]
pub struct State {
    bindings: Bindings,
    frames: Vec<Frame>,
    value: Option<Result<Expression, EvaluationError>>,
    base: usize,
}

impl View for State {
    type V = Machine;

    closed spec fn view(&self) -> Machine {
        Machine {
            env: self.bindings@,
            frames: self.frames@,
            outcome: match self.value {
                Some(r) => Some(result_view(r)),
                None => None,
            },
            base: self.base as nat,
        }
    }
}

/// Whether `e` is a proper list.
fn is_proper_list(e: &Expression) -> (r: bool)
    ensures
        r == (list_end(*e) is Null),
{
    let mut cur: &Expression = e;
    loop
        invariant
            list_end(*e) == list_end(*cur),
        decreases list_len(*cur),
    {
        match cur {
            Expression::Cons(c) => {
                cur = &c.cdr;
            },
            Expression::Null => {
                return true;
            },
            _ => {
                return false;
            },
        }
    }
}

fn is_symbol_named(e: &Expression, text: &str) -> (r: bool)
    ensures
        r == is_symbol(*e, text@),
{
    match e {
        Expression::Symbol(s) => *s == String::from_str(text),
        _ => false,
    }
}

/// The list `values` reversed.
fn reverse(values: &Expression) -> (r: Expression)
    ensures
        r == reverse_onto(*values, Expression::Null),
{
    let mut acc = Expression::Null;
    let mut cur: &Expression = values;
    loop
        invariant
            reverse_onto(*values, Expression::Null) == reverse_onto(*cur, acc),
        decreases list_len(*cur),
    {
        match cur {
            Expression::Cons(c) => {
                acc = Expression::Cons(Cons { car: Box::new(copy_expression(&c.car)), cdr: Box::new(acc) });
                cur = &c.cdr;
            },
            _ => {
                return acc;
            },
        }
    }
}

fn lambda_arity(l: &LambdaProcedure, count: usize) -> (r: Option<EvaluationError>)
    ensures
        match r {
            Some(e) => call_arity_fault(Procedure::LambdaProcedure(*l), count) == Some(e@),
            None => call_arity_fault(Procedure::LambdaProcedure(*l), count) is None,
        },
{
    let fixed = count_items(&l.formals);
    if is_proper_list(&l.formals) {
        if count != fixed {
            Some(EvaluationError::WrongNumberOfArguments(String::from_str("#<procedure>"), fixed, count))
        } else {
            None
        }
    } else if count < fixed {
        Some(EvaluationError::WrongNumberOfVariableArguments(String::from_str("#<procedure>"), fixed, count))
    } else {
        None
    }
}

fn bind_parameters(formals: &Expression, args: &Expression) -> (r: BindingLayer)
    ensures
        layer_view(r@) == parameter_bindings(*formals, *args),
{
    let mut layer: BindingLayer = Vec::new();
    let mut f: &Expression = formals;
    let mut a: &Expression = args;
    loop
        invariant
            layer_view(layer@) + parameter_bindings(*f, *a) == parameter_bindings(*formals, *args),
        decreases list_len(*f),
    {
        let ghost before = layer@;
        match f {
            Expression::Cons(fc) => match (&*fc.car, a) {
                (Expression::Symbol(s), Expression::Cons(ac)) => {
                    let entry = (s.clone(), copy_expression(&ac.car));
                    layer.push(entry);
                    assert(layer_view(layer@) =~= layer_view(before).push((s@, *ac.car)));
                    assert(parameter_bindings(*f, *a) == seq![(s@, *ac.car)].add(parameter_bindings(*fc.cdr, *ac.cdr)));
                    assert(layer_view(layer@) + parameter_bindings(*fc.cdr, *ac.cdr) =~= layer_view(before) + parameter_bindings(*f, *a));
                    f = &fc.cdr;
                    a = &ac.cdr;
                },
                _ => {
                    assert(layer_view(layer@) + parameter_bindings(*f, *a) =~= layer_view(layer@));
                    return layer;
                },
            },
            Expression::Symbol(s) => {
                layer.push((s.clone(), copy_expression(a)));
                assert(layer_view(layer@) =~= layer_view(before) + parameter_bindings(*f, *a));
                return layer;
            },
            _ => {
                assert(layer_view(layer@) + parameter_bindings(*f, *a) =~= layer_view(layer@));
                return layer;
            },
        }
    }
}

fn check_clause(name: &String, clause: &Expression, last: bool) -> (r: Option<EvaluationError>)
    ensures
        match r {
            Some(e) => clause_fault(name@, *clause, last) == Some(e@),
            None => clause_fault(name@, *clause, last) is None,
        },
{
    if !is_proper_list(clause) {
        return Some(EvaluationError::invalid_argument(name.as_str(), "list", clause));
    }
    match clause {
        Expression::Cons(c) => {
            let ends = match &*c.cdr {
                Expression::Cons(_) => false,
                _ => true,
            };
            if last && is_symbol_named(&c.car, "else") && ends {
                Some(EvaluationError::invalid_argument(name.as_str(), "missing expressions in else clause", clause))
            } else {
                None
            }
        },
        _ => Some(EvaluationError::invalid_argument(name.as_str(), "clause is not a test-value pair", &Expression::Null)),
    }
}

fn check_clauses(name: &String, clauses: &Expression) -> (r: Option<EvaluationError>)
    ensures
        match r {
            Some(e) => cond_fault(name@, *clauses) == Some(e@),
            None => cond_fault(name@, *clauses) is None,
        },
{
    let mut cur: &Expression = clauses;
    loop
        invariant
            cond_fault(name@, *clauses) == cond_fault(name@, *cur),
        decreases list_len(*cur),
    {
        match cur {
            Expression::Cons(c) => {
                let last = match &*c.cdr {
                    Expression::Cons(_) => false,
                    _ => true,
                };
                if let Some(e) = check_clause(name, &c.car, last) {
                    return Some(e);
                }
                cur = &c.cdr;
            },
            _ => {
                return None;
            },
        }
    }
}

/// The expressions that `clause` selects.
fn clause_branch(clause: &Expression) -> (r: Expression)
    ensures
        r == branch(*clause),
{
    match clause {
        Expression::Cons(c) => match &*c.cdr {
            Expression::Cons(d) => if is_symbol_named(&d.car, "=>") {
                copy_expression(&d.cdr)
            } else {
                copy_expression(&c.cdr)
            },
            other => copy_expression(other),
        },
        _ => Expression::Null,
    }
}

impl State {
    fn fail(&mut self, e: EvaluationError)
        ensures
            final(self)@ == old(self)@.fail(e@),
    {
        self.bindings.truncate(self.base);
        self.value = Some(Err(e));
    }

    fn push_frame(&mut self, f: Frame)
        ensures
            final(self)@ == old(self)@.push(f),
    {
        self.frames.push(f);
    }

    fn release(&mut self, tail: bool)
        ensures
            final(self)@ == old(self)@.release(tail),
    {
        if tail {
            self.bindings.pop();
        }
    }

    fn start_call(&mut self, callee: Expression, args: Expression, tail: bool)
        ensures
            final(self)@ == old(self)@.start_call(callee, args, tail),
    {
        let p = match callee {
            Expression::Procedure(p) => p,
            _ => {
                self.fail(EvaluationError::NotAProcedure(callee));
                return;
            },
        };
        if !is_proper_list(&args) {
            let name = match &p {
                Procedure::BuiltinProcedure(b) => b.name.clone(),
                Procedure::LambdaProcedure(_) => String::from_str("#<procedure>"),
            };
            self.fail(EvaluationError::InvalidArgument(name, String::from_str("list"), args));
            return;
        }
        let b = match p {
            Procedure::BuiltinProcedure(b) => b,
            Procedure::LambdaProcedure(l) => {
                self.push_frame(
                    Frame::ArgParse {
                        procedure: Procedure::LambdaProcedure(l),
                        values: Expression::Null,
                        remaining: args,
                        tail,
                    },
                );
                return;
            },
        };
        match b.operation {
            Operation::Quote | Operation::Lambda | Operation::Define | Operation::Cond => {},
            _ => {
                self.push_frame(
                    Frame::ArgParse { procedure: Procedure::BuiltinProcedure(b), values: Expression::Null, remaining: args, tail },
                );
                return;
            },
        }
        let count = count_items(&args);
        if let Some(e) = check_arity(&b, count) {
            self.fail(e);
            return;
        }
        match b.operation {
            Operation::Define => {
                match &args {
                    Expression::Cons(c) => match &*c.car {
                        Expression::Symbol(s) => {
                            let value_expression = match &*c.cdr {
                                Expression::Cons(d) => copy_expression(&d.car),
                                _ => Expression::Void,
                            };
                            assert(nth(*c.cdr, 0) == value_expression);
                            assert(nth(args, 1) == value_expression);
                            self.push_frame(Frame::Define { name: s.clone(), value: None, tail });
                            self.push_frame(Frame::Evaluate { expression: value_expression, tail: false });
                        },
                        other => {
                            self.fail(EvaluationError::invalid_argument(b.name.as_str(), "symbol", other));
                        },
                    },
                    _ => {
                        self.fail(EvaluationError::invalid_argument(b.name.as_str(), "symbol", &Expression::Void));
                    },
                }
            },
            Operation::Cond => {
                if let Some(e) = check_clauses(&b.name, &args) {
                    self.fail(e);
                } else {
                    self.push_frame(Frame::Cond { clauses: args, value: None, tail });
                }
            },
            _ => {
                self.push_frame(Frame::BuiltinCall { procedure: b, elapsed: 0, arguments: args, tail });
            },
        }
    }

    fn invoke(&mut self, p: Procedure, args: Expression, tail: bool)
        ensures
            final(self)@ == old(self)@.invoke(p, args, tail),
    {
        match p {
            Procedure::BuiltinProcedure(b) => {
                self.push_frame(Frame::BuiltinCall { procedure: b, elapsed: 0, arguments: args, tail });
            },
            Procedure::LambdaProcedure(l) => {
                self.release(tail);
                let layer = bind_parameters(&l.formals, &args);
                self.bindings.push(layer);
                self.push_frame(Frame::Body { body: *l.body, tail: true });
            },
        }
    }

    fn deliver(&mut self, v: Expression, tail: bool)
        ensures
            final(self)@ == old(self)@.deliver(v, tail),
    {
        let ghost released = old(self)@.release(tail);
        self.release(tail);
        let top = self.frames.pop();
        match top {
            None => {
                self.value = Some(Ok(v));
            },
            Some(Frame::ArgParse { procedure, values, remaining, tail: t }) => {
                let values = Expression::Cons(Cons { car: Box::new(v), cdr: Box::new(values) });
                self.frames.push(Frame::ArgParse { procedure, values, remaining, tail: t });
            },
            Some(Frame::Cond { clauses, value: None, tail: t }) => match clauses {
                Expression::Cons(c) => {
                    let is_false = match &v {
                        Expression::Boolean(false) => true,
                        _ => false,
                    };
                    if is_false {
                        self.frames.push(Frame::Cond { clauses: *c.cdr, value: None, tail: t });
                    } else {
                        let body = clause_branch(&c.car);
                        if let Expression::Cons(_) = &body {
                            self.frames.push(Frame::Body { body, tail: t });
                        } else {
                            self.frames.push(Frame::Cond { clauses: Expression::Cons(c), value: Some(v), tail: t });
                        }
                    }
                },
                other => {
                    self.frames.push(Frame::Cond { clauses: other, value: None, tail: t });
                    assert(self.frames@ =~= released.frames);
                },
            },
            Some(Frame::Define { name, value: None, tail: t }) => {
                self.frames.push(Frame::Define { name, value: Some(v), tail: t });
            },
            Some(Frame::Apply { arguments, tail: t }) => {
                self.start_call(v, arguments, t);
            },
            Some(other) => {
                self.frames.push(other);
                assert(self.frames@ =~= released.frames);
            },
        }
    }

    /// An empty machine: no bindings, no frames, no outcome.
    pub fn empty() -> (r: State)
        ensures
            r@.env.globals.len() == 0,
            r@.env.layers.len() == 0,
            r@.frames.len() == 0,
            r@.outcome is None,
            r@.base == 0,
    {
        State { bindings: Bindings::new(), frames: Vec::new(), value: None, base: 0 }
    }

    /// A machine over the environment `bindings`, with no frames and no outcome.
    pub fn with_bindings(bindings: Bindings) -> (r: State)
        ensures
            r@.env == bindings@,
            r@.frames.len() == 0,
            r@.outcome is None,
            r@.base == bindings@.layers.len(),
    {
        let base = bindings.depth();
        State { bindings, frames: Vec::new(), value: None, base }
    }

    /// The machine's environment, handed back.
    pub fn into_bindings(self) -> (r: Bindings)
        ensures
            r@ == self@.env,
    {
        self.bindings
    }

    /// Binds `name` to `value` in the innermost layer, or globally.
    pub fn bind(&mut self, name: &str, value: Expression)
        ensures
            final(self)@ == old(self)@.with_env(old(self)@.env.bind(name@, value)),
    {
        self.bindings.bind(name, value);
    }

    /// Binds a builtin procedure under its own name; any other value is ignored.
    pub fn bind_builtin(&mut self, builtin: Expression)
        ensures
            match builtin {
                Expression::Procedure(Procedure::BuiltinProcedure(b)) => final(self)@ == old(self)@.with_env(
                    old(self)@.env.bind(b.name@, builtin),
                ),
                _ => final(self)@ == old(self)@,
            },
    {
        self.bindings.bind_builtin(builtin);
    }

    /// Installs a root computation, the evaluation of `expression`, on a
    /// machine that is not running: one that has no frames or has finished.
    /// The previous outcome is cleared, and the environment's current depth
    /// becomes the depth that an error returns to.
    pub fn begin(&mut self, expression: Expression)
        requires
            old(self)@.frames.len() == 0 || old(self)@.outcome is Some,
        ensures
            final(self)@ == (Machine {
                env: old(self)@.env,
                frames: seq![Frame::Evaluate { expression, tail: false }],
                outcome: None,
                base: old(self)@.env.layers.len(),
            }),
            consistent(final(self)@),
    {
        self.frames = Vec::new();
        self.frames.push(Frame::Evaluate { expression, tail: false });
        self.value = None;
        self.base = self.bindings.depth();
        assert(self.frames@ =~= seq![Frame::Evaluate { expression, tail: false }]);
        assert(self.frames@.drop_last() =~= Seq::<Frame>::empty());
        assert(owned(Seq::<Frame>::empty()) == 0);
    }

    /// Advances the machine by one step; once the outcome is set this does nothing.
    pub fn tick(&mut self)
        ensures
            final(self)@ == old(self)@.step(),
    {
        if self.value.is_some() {
            return;
        }
        let top = self.frames.pop();
        let frame = match top {
            Some(frame) => frame,
            None => {
                return;
            },
        };
        match frame {
            Frame::Evaluate { expression, tail } => match expression {
                Expression::Symbol(s) => match self.bindings.lookup(&s) {
                    Some(v) => self.deliver(v, tail),
                    None => self.fail(EvaluationError::UndefinedSymbol(s)),
                },
                Expression::Cons(c) => {
                    let Cons { car, cdr } = c;
                    match *car {
                        Expression::Symbol(s) => match self.bindings.lookup(&s) {
                            Some(v) => self.start_call(v, *cdr, tail),
                            None => self.fail(EvaluationError::UndefinedSymbol(s)),
                        },
                        Expression::Cons(inner) => {
                            self.push_frame(Frame::Apply { arguments: *cdr, tail });
                            self.push_frame(Frame::Evaluate { expression: Expression::Cons(inner), tail: false });
                        },
                        head => self.start_call(head, *cdr, tail),
                    }
                },
                other => self.deliver(other, tail),
            },
            Frame::ArgParse { procedure, values, remaining, tail } => {
                let done = count_items(&values);
                let left = count_items(&remaining);
                let total = if done > usize::MAX - left { usize::MAX } else { done + left };
                let (fixed, more, fault) = match &procedure {
                    Procedure::BuiltinProcedure(b) => (b.arity, b.variadic, check_arity(b, total)),
                    Procedure::LambdaProcedure(l) => (
                        count_items(&l.formals),
                        !is_proper_list(&l.formals),
                        lambda_arity(l, total),
                    ),
                };
                let settled = match &remaining {
                    Expression::Cons(_) => !more && done >= fixed,
                    _ => true,
                };
                if settled && fault.is_some() {
                    self.fail(fault.unwrap());
                    return;
                }
                match remaining {
                    Expression::Cons(c) => {
                        let Cons { car, cdr } = c;
                        self.push_frame(Frame::ArgParse { procedure, values, remaining: *cdr, tail });
                        self.push_frame(Frame::Evaluate { expression: *car, tail: false });
                    },
                    _ => {
                        let args = reverse(&values);
                        self.invoke(procedure, args, tail);
                    },
                }
            },
            Frame::BuiltinCall { procedure, elapsed, arguments, tail } => {
                if elapsed < u32::MAX && elapsed + 1 < procedure.ticks {
                    self.push_frame(Frame::BuiltinCall { procedure, elapsed: elapsed + 1, arguments, tail });
                } else {
                    match procedure.operation {
                        Operation::Define | Operation::Cond => {
                            self.push_frame(Frame::BuiltinCall { procedure, elapsed, arguments, tail });
                            assert(self.frames@ =~= old(self).frames@);
                        },
                        _ => match apply_builtin(&procedure, &arguments) {
                            Ok(v) => self.deliver(v, tail),
                            Err(e) => self.fail(e),
                        },
                    }
                }
            },
            Frame::Body { body, tail } => match body {
                Expression::Cons(c) => {
                    let Cons { car, cdr } = c;
                    if let Expression::Cons(_) = &*cdr {
                        self.push_frame(Frame::Body { body: *cdr, tail });
                        self.push_frame(Frame::Evaluate { expression: *car, tail: false });
                    } else {
                        self.push_frame(Frame::Evaluate { expression: *car, tail });
                    }
                },
                _ => self.deliver(Expression::Void, tail),
            },
            Frame::Cond { clauses, value, tail } => match value {
                Some(v) => self.deliver(v, tail),
                None => match clauses {
                    Expression::Cons(c) => {
                        let ends = match &*c.cdr {
                            Expression::Cons(_) => false,
                            _ => true,
                        };
                        match &*c.car {
                            Expression::Cons(clause) => {
                                if is_symbol_named(&clause.car, "else") && ends {
                                    self.push_frame(Frame::Body { body: copy_expression(&clause.cdr), tail });
                                } else {
                                    let test = copy_expression(&clause.car);
                                    self.push_frame(Frame::Cond { clauses: Expression::Cons(c), value: None, tail });
                                    self.push_frame(Frame::Evaluate { expression: test, tail: false });
                                }
                            },
                            _ => {
                                self.push_frame(Frame::Cond { clauses: *c.cdr, value: None, tail });
                            },
                        }
                    },
                    _ => self.deliver(Expression::Void, tail),
                },
            },
            Frame::Define { name, value, tail } => match value {
                Some(v) => {
                    self.bindings.bind_string(name, v);
                    self.deliver(Expression::Void, tail);
                },
                None => {
                    self.push_frame(Frame::Define { name, value: None, tail });
                    assert(self.frames@ =~= old(self).frames@);
                },
            },
            Frame::Apply { arguments, tail } => {
                self.push_frame(Frame::Apply { arguments, tail });
                assert(self.frames@ =~= old(self).frames@);
            },
        }
    }

    /// The outcome: `None` while evaluation is still running.
    pub fn get_value(&self) -> (r: Option<Result<Expression, EvaluationError>>)
        ensures
            match r {
                Some(x) => self@.outcome == Some(result_view(x)),
                None => self@.outcome is None,
            },
    {
        match &self.value {
            Some(Ok(v)) => Some(Ok(v.clone())),
            Some(Err(e)) => Some(Err(e.clone())),
            None => None,
        }
    }

    /// Ticks until the outcome is set or no frame is left (at most
    /// `u64::MAX` ticks). When the machine was consistent, an evaluation that
    /// ended, with a value or an error, leaves the environment as deep as it
    /// was when the evaluation began.
    pub fn run_to_completion(&mut self)
        ensures
            exists|n: nat|
                #![trigger old(self)@.run(n)]
                old(self)@.run(n) == final(self)@ && (final(self)@.outcome is Some || final(self)@.frames.len() == 0
                    || n == u64::MAX),
            consistent(old(self)@) ==> consistent(final(self)@),
            consistent(old(self)@) && final(self)@.outcome is Some ==> final(self)@.env.layers.len()
                == old(self)@.base,
    {
        let ghost start = self@;
        let mut n: u64 = 0;
        while self.value.is_none() && self.frames.len() > 0 && n < u64::MAX
            invariant
                self@ == start.run(n as nat),
            decreases u64::MAX - n,
        {
            self.tick();
            proof {
                lemma_run_then_step(start, n as nat);
            }
            n = n + 1;
        }
        proof {
            if consistent(start) {
                lemma_run_consistent(start, n as nat);
            }
        }
        assert(start.run(n as nat) == self@);
    }

    /// The number of frames on the stack.
    pub fn frame_count(&self) -> (r: usize)
        ensures
            r == self@.frames.len(),
    {
        self.frames.len()
    }

    /// The number of call-local environment layers.
    pub fn depth(&self) -> (r: usize)
        ensures
            r == self@.env.layers.len(),
    {
        self.bindings.depth()
    }
}

/// Running `n + 1` ticks is running `n` and then one more.
pub proof fn lemma_run_then_step(m: Machine, n: nat)
    ensures
        m.run(n + 1) == m.run(n).step(),
    decreases n,
{
    if n > 0 {
        lemma_run_then_step(m.step(), (n - 1) as nat);
        assert(m.run(n) == m.step().run((n - 1) as nat));
        assert(m.run(n + 1) == m.step().run(n));
    } else {
        assert(m.run(1) == m.step().run(0));
    }
}

/// Once evaluation has ended, with a value or with an error, ticking changes
/// nothing: no frame runs after a failure.
pub proof fn lemma_outcome_is_final(m: Machine, n: nat)
    requires
        m.outcome is Some,
    ensures
        m.run(n) == m,
    decreases n,
{
    if n > 0 {
        lemma_outcome_is_final(m.step(), (n - 1) as nat);
    }
}

/// Arguments are evaluated left to right: while arguments remain, a tick
/// evaluates the leftmost one next, above the call that waits for it.
pub proof fn lemma_leftmost_argument_next(m: Machine)
    requires
        m.outcome is None,
        m.frames.len() > 0,
        m.frames.last() matches Frame::ArgParse { remaining: Expression::Cons(_), .. },
        arity_failure(m.frames.last()->ArgParse_procedure, m.frames.last()->ArgParse_values, m.frames.last()->ArgParse_remaining) is None,
    ensures
        ({
            let f = m.frames.last();
            let c = f->ArgParse_remaining->Cons_0;
            m.step().frames == m.frames.drop_last().push(
                Frame::ArgParse {
                    procedure: f->ArgParse_procedure,
                    values: f->ArgParse_values,
                    remaining: *c.cdr,
                    tail: f->ArgParse_tail,
                },
            ).push(Frame::Evaluate { expression: *c.car, tail: false })
        }),
{
}

/// A value handed to a call that is evaluating its arguments joins the
/// values before it, so that the procedure gets them in source order.
pub proof fn lemma_argument_value_recorded(m: Machine, v: Expression)
    requires
        m.frames.len() > 0,
        m.frames.last() matches Frame::ArgParse { .. },
    ensures
        ({
            let f = m.frames.last();
            m.deliver(v, false).frames == m.frames.drop_last().push(
                Frame::ArgParse {
                    procedure: f->ArgParse_procedure,
                    values: pair(v, f->ArgParse_values),
                    remaining: f->ArgParse_remaining,
                    tail: f->ArgParse_tail,
                },
            )
        }),
{
}

/// Values recorded latest first come out, reversed, in source order.
pub proof fn lemma_reverse_restores_order(items: Seq<Expression>)
    ensures
        reverse_onto(reversed(items), Expression::Null) == crate::types::list_of(items),
{
    lemma_reverse_onto(items, Seq::empty());
}

/// The values `items` recorded latest first, on top of nothing.
pub open spec fn reversed(items: Seq<Expression>) -> Expression
    decreases items.len(),
{
    if items.len() == 0 {
        Expression::Null
    } else {
        pair(items.last(), reversed(items.drop_last()))
    }
}

proof fn lemma_reverse_onto(items: Seq<Expression>, done: Seq<Expression>)
    ensures
        reverse_onto(reversed(items), crate::types::list_of(done)) == crate::types::list_of(items + done),
    decreases items.len(),
{
    if items.len() > 0 {
        let last = items.last();
        lemma_reverse_onto(items.drop_last(), seq![last] + done);
        assert(items.drop_last() + (seq![last] + done) =~= items + done);
        assert((seq![last] + done).drop_first() =~= done);
    } else {
        assert(items + done =~= done);
    }
}

/// A call in tail position reuses its caller's place: when a lambda is
/// invoked from the tail of another call, the frame stack and the stack of
/// environment layers keep their heights.
pub proof fn lemma_tail_call_keeps_depth(m: Machine)
    requires
        m.outcome is None,
        m.frames.len() > 0,
        m.env.layers.len() > 0,
        m.frames.last() matches Frame::ArgParse { procedure: Procedure::LambdaProcedure(_), remaining, tail: true, .. },
        !(m.frames.last()->ArgParse_remaining is Cons),
        arity_failure(m.frames.last()->ArgParse_procedure, m.frames.last()->ArgParse_values, m.frames.last()->ArgParse_remaining) is None,
    ensures
        m.step().frames.len() == m.frames.len(),
        m.step().env.layers.len() == m.env.layers.len(),
        m.step().frames.last() matches Frame::Body { tail: true, .. },
{
}

/// The last expression of a body is evaluated in the body's place, and
/// takes over its tail position.
pub proof fn lemma_last_expression_in_place(m: Machine)
    requires
        m.outcome is None,
        m.frames.len() > 0,
        m.frames.last() matches Frame::Body { body: Expression::Cons(c), .. },
        !(*m.frames.last()->Body_body->Cons_0.cdr is Cons),
    ensures
        ({
            let f = m.frames.last();
            let c = f->Body_body->Cons_0;
            &&& m.step().frames == m.frames.drop_last().push(Frame::Evaluate { expression: *c.car, tail: f->Body_tail })
            &&& m.step().env == m.env
        }),
{
}

/// A call whose head names a lambda replaces the frame that evaluates it,
/// keeping its tail position.
pub proof fn lemma_call_in_place(m: Machine)
    requires
        m.outcome is None,
        m.frames.len() > 0,
        calls_lambda(m.frames.last(), m.env),
    ensures
        m.step().frames.len() == m.frames.len(),
        m.step().env == m.env,
        m.step().frames.last() is ArgParse,
        m.step().frames.last()->ArgParse_tail == m.frames.last()->Evaluate_tail,
{
}

/// The clause that a `cond` selects when its test holds takes the `cond`'s
/// place and its tail position.
pub proof fn lemma_cond_branch_in_place(m: Machine, v: Expression)
    requires
        m.frames.len() > 0,
        m.frames.last() matches Frame::Cond { clauses: Expression::Cons(c), value: None, .. },
        v != Expression::Boolean(false),
    ensures
        ({
            let f = m.frames.last();
            let c = f->Cond_clauses->Cons_0;
            branch(*c.car) is Cons ==> m.deliver(v, false).frames == m.frames.drop_last().push(
                Frame::Body { body: branch(*c.car), tail: f->Cond_tail },
            )
        }),
{
}

/// Whether `f` is a `cond` whose one remaining clause is its `else` clause.
pub open spec fn else_is_last(f: Frame) -> bool {
    match f {
        Frame::Cond { clauses: Expression::Cons(c), value: None, .. } => match *c.car {
            Expression::Cons(clause) => is_symbol(*clause.car, "else"@) && !(*c.cdr is Cons),
            _ => false,
        },
        _ => false,
    }
}

/// Whether `f` evaluates a well-formed call of a lambda that `env` binds to
/// the call's head symbol.
pub open spec fn calls_lambda(f: Frame, env: Environment) -> bool {
    match f {
        Frame::Evaluate { expression: Expression::Cons(c), .. } => match *c.car {
            Expression::Symbol(s) => match env.lookup(s@) {
                Some(Expression::Procedure(Procedure::LambdaProcedure(l))) => list_end(*c.cdr) is Null,
                _ => false,
            },
            _ => false,
        },
        _ => false,
    }
}

/// When the clauses before it have failed, the `else` clause takes the
/// `cond`'s place and its tail position.
pub proof fn lemma_else_branch_in_place(m: Machine)
    requires
        m.outcome is None,
        m.frames.len() > 0,
        else_is_last(m.frames.last()),
    ensures
        ({
            let f = m.frames.last();
            let clause = (*f->Cond_clauses->Cons_0.car)->Cons_0;
            m.step().frames == m.frames.drop_last().push(Frame::Body { body: *clause.cdr, tail: f->Cond_tail })
        }),
{
}


/// Whether `p` is called through argument evaluation: every procedure but the
/// special forms `define` and `cond`.
pub open spec fn plain(p: Procedure) -> bool {
    match p {
        Procedure::BuiltinProcedure(b) => !is_special(b.operation),
        Procedure::LambdaProcedure(_) => true,
    }
}

/// Whether `f` is a frame that waits for the value of the frame above it.
pub open spec fn waits(f: Frame) -> bool {
    match f {
        Frame::ArgParse { procedure, .. } => plain(procedure),
        Frame::Body { .. } => true,
        Frame::Apply { .. } => true,
        Frame::Cond { value, .. } => value is None,
        Frame::Define { value, .. } => value is None,
        _ => false,
    }
}

/// Whether `f` can take a step when it is on top.
pub open spec fn ready(f: Frame) -> bool {
    match f {
        Frame::ArgParse { procedure, .. } => plain(procedure),
        Frame::BuiltinCall { procedure, .. } => !is_special(procedure.operation),
        Frame::Apply { .. } => false,
        Frame::Define { value, .. } => value is Some,
        _ => true,
    }
}

pub open spec fn all_wait(frames: Seq<Frame>) -> bool {
    forall|i: int| 0 <= i < frames.len() ==> waits(#[trigger] frames[i])
}

/// The shape of every machine that evaluation reaches. While it runs, each
/// frame below the top waits for a value, the top can take a step, and the
/// environment holds the layers it had when evaluation began plus one for
/// each frame that owns a layer. Once it has ended, the environment is back
/// to the depth it had when evaluation began.
pub open spec fn consistent(m: Machine) -> bool {
    &&& m.outcome is Some ==> m.env.layers.len() == m.base
    &&& m.outcome is None ==> m.env.layers.len() == m.base + owned(m.frames)
    &&& m.outcome is None && m.frames.len() > 0 ==> all_wait(m.frames.drop_last()) && ready(m.frames.last())
}

pub open spec fn count(b: bool) -> nat {
    if b { 1 } else { 0 }
}

proof fn lemma_owned_push(frames: Seq<Frame>, f: Frame)
    ensures
        owned(frames.push(f)) == owned(frames) + count(tail_of(f)),
{
    assert(frames.push(f).drop_last() =~= frames);
}

proof fn lemma_push_waiting(frames: Seq<Frame>, f: Frame)
    requires
        all_wait(frames),
        waits(f),
    ensures
        all_wait(frames.push(f)),
{
    assert forall|i: int| 0 <= i < frames.push(f).len() implies waits(#[trigger] frames.push(f)[i]) by {
        if i < frames.len() {
            assert(frames.push(f)[i] == frames[i]);
        }
    }
}

/// The frames are those of a running machine with an extra `tail` frame
/// just taken off the top.
pub open spec fn open_after_pop(m: Machine, tail: bool) -> bool {
    &&& m.outcome is None
    &&& all_wait(m.frames)
    &&& m.env.layers.len() == m.base + owned(m.frames) + count(tail)
}

proof fn lemma_push_top(m: Machine, f: Frame)
    requires
        open_after_pop(m, tail_of(f)),
        ready(f),
    ensures
        consistent(m.push(f)),
{
    lemma_owned_push(m.frames, f);
    assert(m.push(f).frames.drop_last() =~= m.frames);
}

proof fn lemma_push_pair(m: Machine, below: Frame, top: Frame)
    requires
        m.outcome is None,
        all_wait(m.frames),
        m.env.layers.len() == m.base + owned(m.frames) + count(tail_of(below)) + count(tail_of(top)),
        waits(below),
        ready(top),
    ensures
        consistent(m.push(below).push(top)),
{
    lemma_owned_push(m.frames, below);
    lemma_push_waiting(m.frames, below);
    lemma_push_top(m.push(below), top);
}

proof fn lemma_fail_consistent(m: Machine, f: Fault)
    requires
        m.env.layers.len() >= m.base,
    ensures
        consistent(m.fail(f)),
{
}

proof fn lemma_start_call_consistent(m: Machine, callee: Expression, args: Expression, tail: bool)
    requires
        open_after_pop(m, tail),
    ensures
        consistent(m.start_call(callee, args, tail)),
{
    let e = Frame::Evaluate { expression: nth(args, 1), tail: false };
    if let Expression::Symbol(s) = nth(args, 0) {
        lemma_push_pair(m, Frame::Define { name: s, value: None, tail }, e);
    }
    if let Expression::Procedure(p) = callee {
        if plain(p) {
            lemma_push_top(m, Frame::ArgParse { procedure: p, values: Expression::Null, remaining: args, tail });
        }
        lemma_push_top(m, Frame::Cond { clauses: args, value: None, tail });
        if let Procedure::BuiltinProcedure(b) = p {
            if !is_special(b.operation) {
                lemma_push_top(m, Frame::BuiltinCall { procedure: b, elapsed: 0, arguments: args, tail });
            }
        }
    }
}

proof fn lemma_deliver_consistent(m: Machine, v: Expression, tail: bool)
    requires
        open_after_pop(m, tail),
    ensures
        consistent(m.deliver(v, tail)),
{
    let r = m.release(tail);
    assert(r.env.layers.len() == r.base + owned(r.frames));
    if r.frames.len() > 0 {
        let rest = r.with_frames(r.frames.drop_last());
        assert(all_wait(rest.frames));
        let top = r.frames.last();
        assert(waits(top));
        assert(owned(r.frames) == owned(rest.frames) + count(tail_of(top)));
        match top {
            Frame::ArgParse { procedure, values, remaining, tail: t } => {
                lemma_push_top(rest, Frame::ArgParse { procedure, values: pair(v, values), remaining, tail: t });
            },
            Frame::Cond { clauses, value, tail: t } => {
                if let Expression::Cons(c) = clauses {
                    lemma_push_top(rest, Frame::Cond { clauses: *c.cdr, value: None, tail: t });
                    lemma_push_top(rest, Frame::Body { body: branch(*c.car), tail: t });
                    lemma_push_top(rest, Frame::Cond { clauses, value: Some(v), tail: t });
                } else {
                    assert(r.frames.drop_last().push(r.frames.last()) =~= r.frames);
                }
            },
            Frame::Define { name, value, tail: t } => {
                lemma_push_top(rest, Frame::Define { name, value: Some(v), tail: t });
            },
            Frame::Apply { arguments, tail: t } => {
                lemma_start_call_consistent(rest, v, arguments, t);
            },
            _ => {
                assert(r.frames.drop_last().push(r.frames.last()) =~= r.frames);
            },
        }
    }
}

/// Every tick keeps the machine consistent: a value always goes to a frame
/// that waits for one, and each layer is closed by the frame that owns it.
pub proof fn lemma_step_consistent(m: Machine)
    requires
        consistent(m),
    ensures
        consistent(m.step()),
        m.step().base == m.base,
{
    if m.outcome is None && m.frames.len() > 0 {
        let rest = m.with_frames(m.frames.drop_last());
        let top = m.frames.last();
        assert(m.frames.drop_last().push(top) =~= m.frames);
        lemma_owned_push(rest.frames, top);
        assert(open_after_pop(rest, tail_of(top)));
        let env = rest.env;
        match top {
            Frame::Evaluate { expression, tail } => {
                if let Expression::Symbol(s) = expression {
                    if let Some(v) = env.lookup(s@) {
                        lemma_deliver_consistent(rest, v, tail);
                    }
                } else if let Expression::Cons(c) = expression {
                    match *c.car {
                        Expression::Symbol(s) => {
                            if let Some(v) = env.lookup(s@) {
                                lemma_start_call_consistent(rest, v, *c.cdr, tail);
                            }
                        },
                        Expression::Cons(_) => {
                            lemma_push_pair(
                                rest,
                                Frame::Apply { arguments: *c.cdr, tail },
                                Frame::Evaluate { expression: *c.car, tail: false },
                            );
                        },
                        head => {
                            lemma_start_call_consistent(rest, head, *c.cdr, tail);
                        },
                    }
                } else {
                    lemma_deliver_consistent(rest, expression, tail);
                }
            },
            Frame::ArgParse { procedure, values, remaining, tail } => {
                if let Expression::Cons(c) = remaining {
                    lemma_push_pair(
                        rest,
                        Frame::ArgParse { procedure, values, remaining: *c.cdr, tail },
                        Frame::Evaluate { expression: *c.car, tail: false },
                    );
                } else {
                    let args = reverse_onto(values, Expression::Null);
                    match procedure {
                        Procedure::BuiltinProcedure(b) => {
                            lemma_push_top(rest, Frame::BuiltinCall { procedure: b, elapsed: 0, arguments: args, tail });
                        },
                        Procedure::LambdaProcedure(l) => {
                            let r = rest.release(tail);
                            let pushed = r.with_env(r.env.push(parameter_bindings(*l.formals, args)));
                            assert(open_after_pop(pushed, true));
                            lemma_push_top(pushed, Frame::Body { body: *l.body, tail: true });
                        },
                    }
                }
            },
            Frame::BuiltinCall { procedure, elapsed, arguments, tail } => {
                if elapsed < u32::MAX && elapsed + 1 < procedure.ticks {
                    lemma_push_top(rest, Frame::BuiltinCall { procedure, elapsed: (elapsed + 1) as u32, arguments, tail });
                } else if let Ok(v) = apply(procedure, arguments) {
                    lemma_deliver_consistent(rest, v, tail);
                }
            },
            Frame::Body { body, tail } => {
                if let Expression::Cons(c) = body {
                    lemma_push_pair(
                        rest,
                        Frame::Body { body: *c.cdr, tail },
                        Frame::Evaluate { expression: *c.car, tail: false },
                    );
                    lemma_push_top(rest, Frame::Evaluate { expression: *c.car, tail });
                } else {
                    lemma_deliver_consistent(rest, Expression::Void, tail);
                }
            },
            Frame::Cond { clauses, value, tail } => {
                if let Some(v) = value {
                    lemma_deliver_consistent(rest, v, tail);
                } else if let Expression::Cons(c) = clauses {
                    if let Expression::Cons(clause) = *c.car {
                        lemma_push_top(rest, Frame::Body { body: *clause.cdr, tail });
                        lemma_push_pair(
                            rest,
                            Frame::Cond { clauses, value: None, tail },
                            Frame::Evaluate { expression: *clause.car, tail: false },
                        );
                    } else {
                        lemma_push_top(rest, Frame::Cond { clauses: *c.cdr, value: None, tail });
                    }
                } else {
                    lemma_deliver_consistent(rest, Expression::Void, tail);
                }
            },
            Frame::Define { name, value, tail } => {
                if let Some(v) = value {
                    let bound = rest.with_env(env.bind(name@, v));
                    assert(bound.env.layers.len() == env.layers.len());
                    lemma_deliver_consistent(bound, Expression::Void, tail);
                }
            },
            _ => {},
        }
    }
}

/// A consistent machine stays consistent however long it runs, and keeps
/// the depth that evaluation began at.
pub proof fn lemma_run_consistent(m: Machine, n: nat)
    requires
        consistent(m),
    ensures
        consistent(m.run(n)),
        m.run(n).base == m.base,
    decreases n,
{
    if n > 0 {
        lemma_step_consistent(m);
        lemma_run_consistent(m.step(), (n - 1) as nat);
    }
}

proof fn lemma_owned_at_most(frames: Seq<Frame>)
    ensures
        owned(frames) <= frames.len(),
    decreases frames.len(),
{
    if frames.len() > 0 {
        lemma_owned_at_most(frames.drop_last());
    }
}

/// However long an evaluation runs, the call-local layers it opened never
/// outnumber its frames: the environment is only as deep as the frame stack,
/// which tail calls keep from growing.
pub proof fn lemma_layers_within_frames(env: Environment, e: Expression, n: nat)
    ensures
        ({
            let m = Machine {
                env,
                frames: seq![Frame::Evaluate { expression: e, tail: false }],
                outcome: None,
                base: env.layers.len(),
            }.run(n);
            env.layers.len() <= m.env.layers.len() <= env.layers.len() + m.frames.len()
        }),
{
    let m0 = Machine {
        env,
        frames: seq![Frame::Evaluate { expression: e, tail: false }],
        outcome: None,
        base: env.layers.len(),
    };
    assert(m0.frames.drop_last() =~= Seq::<Frame>::empty());
    assert(owned(Seq::<Frame>::empty()) == 0);
    assert(consistent(m0));
    lemma_run_consistent(m0, n);
    lemma_owned_at_most(m0.run(n).frames);
}

/// `new` keeps the first `keep` frames of `old` and has at most `grow` more
/// frames than `old`.
pub open spec fn keeps(old: Seq<Frame>, new: Seq<Frame>, keep: int, grow: int) -> bool {
    &&& 0 <= keep <= old.len()
    &&& keep <= new.len() <= old.len() + grow
    &&& new.take(keep) == old.take(keep)
}

proof fn lemma_keeps_push(old: Seq<Frame>, mid: Seq<Frame>, f: Frame, keep: int, grow: int)
    requires
        keeps(old, mid, keep, grow),
    ensures
        keeps(old, mid.push(f), keep, grow + 1),
{
    assert(mid.push(f).take(keep) =~= mid.take(keep));
}

proof fn lemma_keeps_same(s: Seq<Frame>, keep: int)
    requires
        0 <= keep <= s.len(),
    ensures
        keeps(s, s, keep, 0),
{
}

proof fn lemma_keeps_drop(s: Seq<Frame>, keep: int)
    requires
        0 <= keep < s.len(),
    ensures
        keeps(s, s.drop_last(), keep, 0),
{
    assert(s.drop_last().take(keep) =~= s.take(keep));
}

proof fn lemma_start_call_local(m: Machine, callee: Expression, args: Expression, tail: bool)
    requires
        m.start_call(callee, args, tail).outcome is None,
    ensures
        keeps(m.frames, m.start_call(callee, args, tail).frames, m.frames.len() as int, 2),
{
    let fs = m.frames;
    lemma_keeps_same(fs, fs.len() as int);
    assert forall|f: Frame| keeps(fs, #[trigger] fs.push(f), fs.len() as int, 1) by {
        lemma_keeps_push(fs, fs, f, fs.len() as int, 0);
    }
    assert forall|f: Frame, g: Frame| keeps(fs, #[trigger] fs.push(f).push(g), fs.len() as int, 2) by {
        lemma_keeps_push(fs, fs, f, fs.len() as int, 0);
        lemma_keeps_push(fs, fs.push(f), g, fs.len() as int, 1);
    }
}

proof fn lemma_deliver_local(m: Machine, v: Expression, tail: bool)
    requires
        m.deliver(v, tail).outcome is None,
    ensures
        m.frames.len() > 0,
        keeps(m.frames, m.deliver(v, tail).frames, m.frames.len() - 1, 1),
{
    let fs = m.frames;
    let k = fs.len() - 1;
    let rest = m.with_frames(fs.drop_last());
    lemma_keeps_drop(fs, k);
    lemma_keeps_same(fs, k);
    assert forall|f: Frame| keeps(fs, #[trigger] fs.drop_last().push(f), k, 0) by {
        lemma_keeps_push(fs, fs.drop_last(), f, k, -1);
        assert(keeps(fs, fs.drop_last(), k, -1));
    }
    if let Frame::Apply { arguments, tail: t } = fs.last() {
        let r = m.release(tail).with_frames(fs.drop_last());
        if r.start_call(v, arguments, t).outcome is None {
            lemma_start_call_local(r, v, arguments, t);
            let n = r.start_call(v, arguments, t).frames;
            assert(n.take(k) =~= fs.take(k));
        }
    }
}

/// A tick changes no frame but the top one, which it pops, and the one
/// directly below it, and pushes at most two frames: while evaluation runs,
/// the frames under those two are untouched, and the stack grows by at most
/// one frame.
pub proof fn lemma_tick_is_local(m: Machine)
    requires
        m.frames.len() >= 2,
        m.step().outcome is None,
    ensures
        keeps(m.frames, m.step().frames, m.frames.len() - 2, 1),
{
    let fs = m.frames;
    let k = fs.len() - 2;
    if m.outcome is Some {
        lemma_keeps_same(fs, k);
        return;
    }
    let rest = m.with_frames(fs.drop_last());
    let r = fs.drop_last();
    assert(r.take(k) =~= fs.take(k));
    assert(keeps(fs, r, k, -1));
    lemma_keeps_same(fs, k);
    assert forall|f: Frame| keeps(fs, #[trigger] r.push(f), k, 0) by {
        lemma_keeps_push(fs, r, f, k, -1);
    }
    assert forall|f: Frame, g: Frame| keeps(fs, #[trigger] r.push(f).push(g), k, 1) by {
        lemma_keeps_push(fs, r, f, k, -1);
        lemma_keeps_push(fs, r.push(f), g, k, 0);
    }
    assert forall|mm: Machine, v: Expression, t: bool|
        mm.frames == r && #[trigger] mm.deliver(v, t).outcome is None implies keeps(fs, mm.deliver(v, t).frames, k, 0) by {
        lemma_deliver_local(mm, v, t);
        assert(mm.deliver(v, t).frames.take(k) =~= fs.take(k));
    }
    assert forall|mm: Machine, v: Expression, a: Expression, t: bool|
        mm.frames == r && #[trigger] mm.start_call(v, a, t).outcome is None implies keeps(
        fs,
        mm.start_call(v, a, t).frames,
        k,
        1,
    ) by {
        lemma_start_call_local(mm, v, a, t);
        assert(mm.start_call(v, a, t).frames.take(k) =~= fs.take(k));
    }
    assert forall|mm: Machine, p: Procedure, a: Expression, t: bool|
        mm.frames == r && #[trigger] mm.invoke(p, a, t).outcome is None implies keeps(fs, mm.invoke(p, a, t).frames, k, 0) by {
        assert(mm.invoke(p, a, t).frames.len() == r.len() + 1);
        assert(mm.invoke(p, a, t).frames.take(k) =~= fs.take(k));
    }
}

} // verus!
