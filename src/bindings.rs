//! The layered environment: a global layer and a stack of call-local layers.
use vstd::prelude::*;
use crate::types::{Expression, Procedure};

verus! {

/// One scope's worth of bindings, oldest first; a later entry for a name
/// shadows an earlier one.
pub type BindingLayer = Vec<(String, Expression)>;

/// A binding layer as a sequence of names and values.
pub open spec fn layer_view(layer: Seq<(String, Expression)>) -> Seq<(Seq<char>, Expression)> {
    layer.map_values(|entry: (String, Expression)| (entry.0@, entry.1))
}

/// The value that the latest entry of `entries` named `name` holds.
pub open spec fn assoc(entries: Seq<(Seq<char>, Expression)>, name: Seq<char>) -> Option<Expression>
    decreases entries.len(),
{
    if entries.len() == 0 {
        None
    } else if entries.last().0 == name {
        Some(entries.last().1)
    } else {
        assoc(entries.drop_last(), name)
    }
}

/// The environment as mathematical values: the global layer and the stack of
/// call-local layers, innermost last.
pub struct Environment {
    pub globals: Seq<(Seq<char>, Expression)>,
    pub layers: Seq<Seq<(Seq<char>, Expression)>>,
}

impl Environment {
    /// Lookup searches the innermost local layer, then the global layer.
    pub open spec fn lookup(self, name: Seq<char>) -> Option<Expression> {
        if self.layers.len() > 0 && assoc(self.layers.last(), name) is Some {
            assoc(self.layers.last(), name)
        } else {
            assoc(self.globals, name)
        }
    }

    /// A binding goes to the innermost local layer, or to the global layer
    /// when there is none.
    pub open spec fn bind(self, name: Seq<char>, value: Expression) -> Environment {
        if self.layers.len() > 0 {
            Environment {
                globals: self.globals,
                layers: self.layers.update(self.layers.len() - 1, self.layers.last().push((name, value))),
            }
        } else {
            Environment { globals: self.globals.push((name, value)), layers: self.layers }
        }
    }

    /// After a binding, the name holds the new value and every other name
    /// holds what it held before.
    pub proof fn lemma_bind_lookup(self, name: Seq<char>, value: Expression, other: Seq<char>)
        ensures
            self.bind(name, value).lookup(name) == Some(value),
            other != name ==> self.bind(name, value).lookup(other) == self.lookup(other),
    {
        if self.layers.len() > 0 {
            let b = self.bind(name, value);
            assert(b.layers.last() == self.layers.last().push((name, value)));
            assert(b.layers.last().drop_last() == self.layers.last());
        } else {
            assert(self.bind(name, value).globals.drop_last() == self.globals);
        }
    }

    pub open spec fn push(self, layer: Seq<(Seq<char>, Expression)>) -> Environment {
        Environment { globals: self.globals, layers: self.layers.push(layer) }
    }

    /// The environment with only its `depth` outermost call-local layers.
    pub open spec fn truncate(self, depth: nat) -> Environment {
        if depth < self.layers.len() {
            Environment { globals: self.globals, layers: self.layers.take(depth as int) }
        } else {
            self
        }
    }

    pub open spec fn pop(self) -> Environment {
        if self.layers.len() > 0 {
            Environment { globals: self.globals, layers: self.layers.drop_last() }
        } else {
            self
        }
    }
}

/// Layered variable bindings: a global layer and a stack of call-local layers.
#[derive(Debug)]
pub struct Bindings {
    globals: BindingLayer,
    stack: Vec<BindingLayer>,
}

/// The latest value bound to `name` in `entries`.
fn find(entries: &BindingLayer, name: &String) -> (r: Option<Expression>)
    ensures
        r == assoc(layer_view(entries@), name@),
{
    let mut i = entries.len();
    assert(entries@.take(i as int) =~= entries@);
    while i > 0
        invariant
            i <= entries@.len(),
            assoc(layer_view(entries@), name@) == assoc(layer_view(entries@.take(i as int)), name@),
        decreases i,
    {
        assert(layer_view(entries@.take(i as int)).drop_last() =~= layer_view(entries@.take(i - 1)));
        if entries[i - 1].0 == *name {
            return Some(entries[i - 1].1.clone());
        }
        i = i - 1;
    }
    None
}

impl View for Bindings {
    type V = Environment;

    closed spec fn view(&self) -> Environment {
        Environment {
            globals: layer_view(self.globals@),
            layers: self.stack@.map_values(|layer: BindingLayer| layer_view(layer@)),
        }
    }
}

impl Bindings {
    pub fn new() -> (r: Bindings)
        ensures
            r@.globals.len() == 0,
            r@.layers.len() == 0,
    {
        Bindings { globals: Vec::new(), stack: Vec::new() }
    }

    /// Binds `variable` in the innermost layer, or globally when no call is
    /// in progress. A new binding shadows an old one.
    pub fn bind(&mut self, variable: &str, value: Expression)
        ensures
            final(self)@ == old(self)@.bind(variable@, value),
    {
        self.bind_string(String::from_str(variable), value)
    }

    pub fn bind_string(&mut self, variable: String, value: Expression)
        ensures
            final(self)@ == old(self)@.bind(variable@, value),
    {
        let n = self.stack.len();
        if n > 0 {
            let mut layer = self.stack.pop().unwrap();
            let ghost before = layer@;
            let ghost entry = (variable@, value);
            layer.push((variable, value));
            assert(layer_view(layer@) =~= layer_view(before).push(entry));
            self.stack.push(layer);
            assert(final(self)@.layers =~= old(self)@.bind(variable@, value).layers);
        } else {
            self.globals.push((variable, value));
            assert(final(self)@.globals =~= old(self)@.bind(variable@, value).globals);
        }
    }

    /// Binds a builtin procedure under its own name; any other value is ignored.
    pub fn bind_builtin(&mut self, expr: Expression)
        ensures
            match expr {
                Expression::Procedure(Procedure::BuiltinProcedure(b)) => final(self)@ == old(self)@.bind(b.name@, expr),
                _ => final(self)@ == old(self)@,
            },
    {
        let name = match &expr {
            Expression::Procedure(Procedure::BuiltinProcedure(b)) => b.name.clone(),
            _ => {
                return;
            },
        };
        self.bind_string(name, expr);
    }

    /// The value bound to `variable`: in the innermost layer, else globally.
    pub fn get(&self, variable: &str) -> (r: Option<Expression>)
        ensures
            r == self@.lookup(variable@),
    {
        self.lookup(&String::from_str(variable))
    }

    pub fn lookup(&self, variable: &String) -> (r: Option<Expression>)
        ensures
            r == self@.lookup(variable@),
    {
        let n = self.stack.len();
        if n > 0 {
            let found = find(&self.stack[n - 1], variable);
            if found.is_some() {
                return found;
            }
        }
        find(&self.globals, variable)
    }

    /// Opens a new innermost layer holding `bindings`.
    pub fn push(&mut self, bindings: BindingLayer)
        ensures
            final(self)@ == old(self)@.push(layer_view(bindings@)),
    {
        self.stack.push(bindings);
        assert(final(self)@.layers =~= old(self)@.push(layer_view(bindings@)).layers);
    }

    /// Closes the innermost layer, if there is one.
    pub fn pop(&mut self)
        ensures
            final(self)@ == old(self)@.pop(),
    {
        if self.stack.len() > 0 {
            self.stack.pop();
            assert(final(self)@.layers =~= old(self)@.pop().layers);
        }
    }

    /// Closes every call-local layer but the `depth` outermost ones.
    pub fn truncate(&mut self, depth: usize)
        ensures
            final(self)@ == old(self)@.truncate(depth as nat),
    {
        if depth < self.stack.len() {
            self.stack.truncate(depth);
            assert(final(self)@.layers =~= old(self)@.truncate(depth as nat).layers);
        }
    }

    /// The number of call-local layers.
    pub fn depth(&self) -> (r: usize)
        ensures
            r == self@.layers.len(),
    {
        self.stack.len()
    }
}

} // verus!
