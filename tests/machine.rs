use ticklisp::{
    define_builtins, parse, Bindings, BuiltinProcedure, EvaluationError, Expression, Number, Operation, Procedure,
    State,
};

fn integer(n: i32) -> Expression {
    Expression::Number(Number::Integer(n))
}

fn adder(ticks: u32) -> Expression {
    Expression::Procedure(Procedure::BuiltinProcedure(BuiltinProcedure {
        name: "+".to_string(),
        operation: Operation::Add,
        arity: 2,
        variadic: false,
        ticks,
    }))
}

fn standard_state() -> State {
    let mut bindings = Bindings::new();
    define_builtins(&mut bindings);
    State::with_bindings(bindings)
}

/// Evaluates `source` on `state` and hands back a fresh machine over the same
/// environment, with the outcome.
fn run(state: State, source: &str) -> (State, Option<Result<Expression, EvaluationError>>) {
    let mut state = state;
    state.begin(parse(source).unwrap());
    state.run_to_completion();
    let value = state.get_value();
    (State::with_bindings(state.into_bindings()), value)
}

/// The largest frame count and layer count seen while evaluating `source`.
fn peaks(state: State, source: &str) -> (State, usize, usize, Option<Result<Expression, EvaluationError>>) {
    let mut state = state;
    state.begin(parse(source).unwrap());
    let mut frames = 0;
    let mut layers = 0;
    while state.get_value().is_none() {
        state.tick();
        frames = frames.max(state.frame_count());
        layers = layers.max(state.depth());
    }
    let value = state.get_value();
    (State::with_bindings(state.into_bindings()), frames, layers, value)
}

#[test]
fn test_call_builtin() {
    let mut state = State::empty();
    state.bind_builtin(adder(5));
    state.bind("foo", integer(6));
    state.begin(parse("(+ 1 foo)").unwrap());
    state.run_to_completion();
    assert_eq!(state.get_value(), Some(Ok(integer(7))));
}

#[test]
fn test_foo() {
    let mut state = State::empty();
    state.bind("foo", integer(6));
    state.begin(parse("(- 1 2)").unwrap());
    state.run_to_completion();
    assert_eq!(state.get_value(), Some(Err(EvaluationError::UndefinedSymbol("-".to_string()))));
}

#[test]
fn builtin_ticks_are_waited_out() {
    for ticks in [1u32, 5, 20] {
        let mut state = State::empty();
        state.bind_builtin(adder(ticks));
        state.begin(parse("(+ 1 2)").unwrap());
        let mut count = 0;
        while state.get_value().is_none() {
            state.tick();
            count += 1;
        }
        // evaluate, parse two arguments (two ticks each), invoke, then the call itself
        assert_eq!(count, 6 + ticks as usize, "ticks {}", ticks);
        assert_eq!(state.get_value(), Some(Ok(integer(3))));
    }
}

#[test]
fn bind_builtin_ignores_other_values() {
    let mut state = State::empty();
    state.bind_builtin(integer(1));
    state.begin(parse("x").unwrap());
    state.run_to_completion();
    assert_eq!(state.get_value(), Some(Err(EvaluationError::UndefinedSymbol("x".to_string()))));
}

#[test]
fn arithmetic_and_arity() {
    let state = standard_state();
    let (state, v) = run(state, "(+ 1 2 3)");
    assert_eq!(v, Some(Ok(integer(6))));
    let (state, v) = run(state, "(+)");
    assert_eq!(v, Some(Err(EvaluationError::WrongNumberOfVariableArguments("+".to_string(), 1, 0))));
    let (state, v) = run(state, "(- 5)");
    assert_eq!(v, Some(Ok(integer(-5))));
    let (_, v) = run(state, "(/ 3 0)");
    assert_eq!(v, Some(Err(EvaluationError::DivideByZero(Number::Integer(3)))));
}

#[test]
fn tail_recursion_runs_in_bounded_depth() {
    let state = standard_state();
    let (state, _) = run(state, "(define loopy (lambda (index) (cond ((eq? index 0) 0) (else (loopy (- index 1))))))");
    let (state, small_frames, small_layers, v) = peaks(state, "(loopy 10)");
    assert_eq!(v, Some(Ok(integer(0))));
    let (_, big_frames, big_layers, v) = peaks(state, "(loopy 10000)");
    assert_eq!(v, Some(Ok(integer(0))));
    assert_eq!(big_frames, small_frames);
    assert_eq!(big_layers, small_layers);
    assert!(big_layers <= 1);
}

#[test]
fn non_tail_recursion_grows() {
    let state = standard_state();
    let (state, _) = run(state, "(define count (lambda (n) (cond ((eq? n 0) 0) (else (+ 1 (count (- n 1)))))))");
    let (state, small_frames, _, v) = peaks(state, "(count 10)");
    assert_eq!(v, Some(Ok(integer(10))));
    let (_, big_frames, _, v) = peaks(state, "(count 100)");
    assert_eq!(v, Some(Ok(integer(100))));
    assert!(big_frames > small_frames);
}

#[test]
fn arguments_are_evaluated_left_to_right() {
    let state = standard_state();
    let (state, v) = run(state, "(cons (define order 1) (define order 2))");
    assert_eq!(v, Some(Ok(Expression::Cons(ticklisp::Cons::new(&Expression::Void, &Expression::Void)))));
    let (state, v) = run(state, "order");
    assert_eq!(v, Some(Ok(integer(2))));
    let (state, _) = run(state, "(define log '())");
    let (state, _) = run(state, "(+ (car (cons 1 (define log (cons 'a log)))) (car (cons 2 (define log (cons 'b log)))))");
    let (_, v) = run(state, "log");
    let b_then_a = parse("(b a)").unwrap();
    assert_eq!(v, Some(Ok(b_then_a)));
}

#[test]
fn errors_stop_evaluation() {
    let state = standard_state();
    let (state, v) = run(state, "(+ 1 (car 5) (define reached 1))");
    assert_eq!(v, Some(Err(EvaluationError::invalid_argument("car", "list", &integer(5)))));
    let (mut state, v) = run(state, "reached");
    assert_eq!(v, Some(Err(EvaluationError::UndefinedSymbol("reached".to_string()))));

    state.begin(parse("(+ 1 undefined-name 3)").unwrap());
    state.run_to_completion();
    let frames = state.frame_count();
    let value = state.get_value();
    assert_eq!(value, Some(Err(EvaluationError::UndefinedSymbol("undefined-name".to_string()))));
    for _ in 0..10 {
        state.tick();
    }
    assert_eq!(state.frame_count(), frames);
    assert_eq!(state.get_value(), value);
}

#[test]
fn errors_inside_calls_release_layers() {
    let state = standard_state();
    let (state, _) = run(state, "(define f (lambda (x) (+ (car x) 1)))");
    let (state, v) = run(state, "(f 1)");
    assert_eq!(v, Some(Err(EvaluationError::invalid_argument("car", "list", &integer(1)))));
    assert_eq!(state.depth(), 0);
    let (state, _) = run(state, "(define after 3)");
    let (state, v) = run(state, "after");
    assert_eq!(v, Some(Ok(integer(3))));
    let (_, v) = run(state, "x");
    assert_eq!(v, Some(Err(EvaluationError::UndefinedSymbol("x".to_string()))));
}

#[test]
fn errors_return_to_the_starting_depth() {
    let mut bindings = Bindings::new();
    define_builtins(&mut bindings);
    bindings.push(vec![("local".to_string(), integer(1))]);
    let state = State::with_bindings(bindings);
    let (state, v) = run(state, "undefined-name");
    assert_eq!(v, Some(Err(EvaluationError::UndefinedSymbol("undefined-name".to_string()))));
    assert_eq!(state.depth(), 1);
    let (state, _) = run(state, "(define f (lambda (x) (+ (car x) 1)))");
    let (state, v) = run(state, "(f 1)");
    assert_eq!(v, Some(Err(EvaluationError::invalid_argument("car", "list", &integer(1)))));
    assert_eq!(state.depth(), 1);
    let (state, v) = run(state, "local");
    assert_eq!(v, Some(Ok(integer(1))));
    assert_eq!(state.depth(), 1);
}

#[test]
fn each_tick_pops_one_frame_and_pushes_at_most_two() {
    let state = standard_state();
    let mut state = state;
    state.begin(parse("(cons (define a (define b (define c 5))) (cond ((+ 1 1)) (else 0)))").unwrap());
    let mut before = state.frame_count();
    while state.get_value().is_none() {
        state.tick();
        let after = state.frame_count();
        if state.get_value().is_none() {
            assert!(after + 1 >= before && after <= before + 1, "{} -> {}", before, after);
        }
        before = after;
    }
    assert_eq!(
        state.get_value(),
        Some(Ok(Expression::Cons(ticklisp::Cons::new(&Expression::Void, &integer(2)))))
    );
    let (_, v) = run(State::with_bindings(state.into_bindings()), "c");
    assert_eq!(v, Some(Ok(integer(5))));
}

#[test]
fn define_binds_on_its_own_tick() {
    let mut state = standard_state();
    state.begin(parse("(define x 5)").unwrap());
    // evaluate the define form, then the value 5, which the define frame takes
    state.tick();
    state.tick();
    assert_eq!(state.frame_count(), 1);
    let bindings = state.into_bindings();
    assert_eq!(bindings.get("x"), None);
    let mut state = State::with_bindings(bindings);
    state.begin(parse("(define x 5)").unwrap());
    for _ in 0..3 {
        state.tick();
    }
    assert_eq!(state.get_value(), Some(Ok(Expression::Void)));
    assert_eq!(state.into_bindings().get("x"), Some(integer(5)));
}

#[test]
fn arity_is_found_while_arguments_are_parsed() {
    let state = standard_state();
    let (state, v) = run(state, "((lambda (x) x) (car 5) 2)");
    assert_eq!(v, Some(Err(EvaluationError::invalid_argument("car", "list", &integer(5)))));
    let (state, v) = run(state, "((lambda (x) x) 1 (car 5))");
    assert_eq!(v, Some(Err(EvaluationError::WrongNumberOfArguments("#<procedure>".to_string(), 1, 2))));
    let (_, v) = run(state, "(car (car 5) 1)");
    assert_eq!(v, Some(Err(EvaluationError::invalid_argument("car", "list", &integer(5)))));
}

#[test]
fn begin_restarts_a_finished_machine() {
    let mut state = standard_state();
    state.begin(parse("(car 1)").unwrap());
    state.run_to_completion();
    assert!(matches!(state.get_value(), Some(Err(_))));
    state.begin(parse("(+ 2 3)").unwrap());
    assert_eq!(state.get_value(), None);
    state.run_to_completion();
    assert_eq!(state.get_value(), Some(Ok(integer(5))));
}

#[test]
fn tail_call_to_a_builtin_releases_the_layer() {
    let state = standard_state();
    let (state, _) = run(state, "(define f (lambda () 'x))");
    let (state, v) = run(state, "(f)");
    assert_eq!(v, Some(Ok(Expression::Symbol("x".to_string()))));
    assert_eq!(state.depth(), 0);
}
