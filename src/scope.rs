//! Sessions: a persistent environment and the evaluation of one expression in it.
use vstd::prelude::*;
use crate::bindings::{layer_view, BindingLayer, Bindings, Environment};
use crate::builtins::{define_builtins, provides, result_view, standard_builtin};
use crate::error::{EvaluationError, Fault};
use crate::machine::{consistent, owned, Frame, Machine, State};
use crate::types::Expression;

verus! {

/// The environment of a session: what successive evaluations define and read.
#[derive(Debug)]
pub struct Scope {
    bindings: Bindings,
}

impl View for Scope {
    type V = Environment;

    closed spec fn view(&self) -> Environment {
        self.bindings@
    }
}

/// A machine over `env` that is about to evaluate `e`.
pub open spec fn starting(env: Environment, e: Expression) -> Machine {
    Machine {
        env,
        frames: seq![Frame::Evaluate { expression: e, tail: false }],
        outcome: None,
        base: env.layers.len(),
    }
}

pub open spec fn outcome_view(r: Option<Result<Expression, EvaluationError>>) -> Option<Result<Expression, Fault>> {
    match r {
        Some(x) => Some(result_view(x)),
        None => None,
    }
}

impl Scope {
    /// An empty scope.
    pub fn new() -> (r: Scope)
        ensures
            r@.globals.len() == 0,
            r@.layers.len() == 0,
    {
        Scope { bindings: Bindings::new() }
    }

    /// A scope holding the standard builtins.
    pub fn builtins() -> (r: Scope)
        ensures
            forall|name: Seq<char>| #[trigger] standard_builtin(name) is Some ==> provides(
                r@.lookup(name),
                name,
                standard_builtin(name)->0,
            ),
    {
        let mut bindings = Bindings::new();
        define_builtins(&mut bindings);
        Scope { bindings }
    }

    /// A scope over `parent` with a layer of its own: definitions go to the
    /// new layer, and lookups fall back to the global layer.
    pub fn child(parent: Scope) -> (r: Scope)
        ensures
            r@ == parent@.push(Seq::empty()),
    {
        let mut bindings = parent.bindings;
        let layer: BindingLayer = Vec::new();
        bindings.push(layer);
        assert(layer_view(layer@) =~= Seq::empty());
        Scope { bindings }
    }

    /// Binds `symbol` to `expression`, shadowing any earlier binding.
    pub fn define(&mut self, symbol: &str, expression: Expression)
        ensures
            final(self)@ == old(self)@.bind(symbol@, expression),
    {
        self.bindings.bind(symbol, expression);
    }

    /// The value bound to `symbol`, or `UndefinedSymbol`.
    pub fn lookup(&self, symbol: &str) -> (r: Result<Expression, EvaluationError>)
        ensures
            match self@.lookup(symbol@) {
                Some(v) => r == Ok::<Expression, EvaluationError>(v),
                None => r matches Err(e) && e@ == Fault::UndefinedSymbol(symbol@),
            },
    {
        match self.bindings.get(symbol) {
            Some(v) => Ok(v),
            None => Err(EvaluationError::UndefinedSymbol(String::from_str(symbol))),
        }
    }
}

/// Evaluates `expression` in `scope` on a fresh machine, and keeps what it
/// defines. The result is the machine's outcome; `None` only when it was
/// still running after `u64::MAX` ticks. An evaluation that ends, with a
/// value or an error, leaves the scope with as many layers as it had.
pub fn evaluate(expression: &Expression, scope: &mut Scope) -> (r: Option<Result<Expression, EvaluationError>>)
    ensures
        exists|n: nat|
            #![trigger starting(old(scope)@, *expression).run(n)]
            {
                let m = starting(old(scope)@, *expression).run(n);
                &&& m.env == final(scope)@
                &&& m.outcome == outcome_view(r)
                &&& m.outcome is Some || m.frames.len() == 0 || n == u64::MAX
            },
        r is Some ==> final(scope)@.layers.len() == old(scope)@.layers.len(),
{
    let mut bindings = Bindings::new();
    core::mem::swap(&mut bindings, &mut scope.bindings);
    let mut state = State::with_bindings(bindings);
    state.begin(expression.clone());
    assert(state@.frames =~= starting(old(scope)@, *expression).frames);
    assert(state@ == starting(old(scope)@, *expression));
    proof {
        assert(starting(old(scope)@, *expression).frames.drop_last() =~= Seq::<Frame>::empty());
        assert(owned(Seq::<Frame>::empty()) == 0);
        assert(owned(state@.frames) == 0);
        assert(consistent(state@));
    }
    state.run_to_completion();
    let r = state.get_value();
    let ghost last = state@;
    scope.bindings = state.into_bindings();
    assert(outcome_view(r) == last.outcome);
    r
}

} // verus!
