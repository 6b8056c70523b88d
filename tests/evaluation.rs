use ticklisp::{evaluate, parse, Cons, EvaluationError, Expression, Number, Scope};

fn integer(n: i32) -> Expression {
    Expression::Number(Number::Integer(n))
}

fn sym(s: &str) -> Expression {
    Expression::Symbol(s.to_string())
}

fn boolean(b: bool) -> Expression {
    Expression::Boolean(b)
}

fn cons(a: &Expression, b: &Expression) -> Expression {
    Expression::Cons(Cons::new(a, b))
}

fn list(items: &[Expression]) -> Expression {
    let mut l = Expression::Null;
    for item in items.iter().rev() {
        l = cons(item, &l);
    }
    l
}

/// A session with the standard builtins.
struct TestContext {
    scope: Scope,
}

impl TestContext {
    fn new() -> TestContext {
        TestContext { scope: Scope::builtins() }
    }

    fn run(&mut self, source: &str) -> Result<Expression, EvaluationError> {
        evaluate(&parse(source).unwrap(), &mut self.scope).unwrap()
    }

    fn exec(&mut self, source: &str) {
        self.run(source).unwrap();
    }

    fn assert_eq(&mut self, source: &str, expected: Expression) {
        assert_eq!(self.run(source), Ok(expected), "{}", source);
    }

    fn assert_err(&mut self, source: &str, error: EvaluationError) {
        assert_eq!(self.run(source), Err(error), "{}", source);
    }
}

fn wrong_variable(name: &str, expected: usize, actual: usize) -> EvaluationError {
    EvaluationError::WrongNumberOfVariableArguments(name.to_string(), expected, actual)
}

#[test]
fn arithmetic_test_evaluate_add() {
    let mut ctx = TestContext::new();
    ctx.assert_eq("(+ 1 2)", integer(3));
    ctx.assert_eq("(+ 1 2 3)", integer(6));
    ctx.assert_eq("(+ 1 -2)", integer(-1));
    ctx.assert_eq("(+ 1)", integer(1));
    ctx.assert_eq("(+ 0 0 0 0)", integer(0));
    ctx.assert_eq("(+ (+ 1 2) (+ 3 4))", integer(10));
    ctx.assert_err("(+)", wrong_variable("+", 1, 0));
    ctx.assert_err("(+ ())", EvaluationError::invalid_argument("+", "number", &Expression::Null));
    ctx.assert_err("(+ 1 . 2)", EvaluationError::invalid_argument("+", "list", &cons(&integer(1), &integer(2))));
}

#[test]
fn arithmetic_test_evaluate_multiply() {
    let mut ctx = TestContext::new();
    ctx.assert_eq("(* 1 2)", integer(2));
    ctx.assert_eq("(* 1 2 3)", integer(6));
    ctx.assert_eq("(* 1 -2)", integer(-2));
    ctx.assert_eq("(* 1)", integer(1));
    ctx.assert_eq("(* 0 0 0 0)", integer(0));
    ctx.assert_eq("(* (* 1 2) (* 3 4))", integer(24));
    ctx.assert_err("(*)", wrong_variable("*", 1, 0));
    ctx.assert_err("(* ())", EvaluationError::invalid_argument("*", "number", &Expression::Null));
    ctx.assert_err("(* 1 . 2)", EvaluationError::invalid_argument("*", "list", &cons(&integer(1), &integer(2))));
}

#[test]
fn arithmetic_test_evaluate_subtract() {
    let mut ctx = TestContext::new();
    ctx.assert_eq("(- 2 1)", integer(1));
    ctx.assert_eq("(- 3 2 1)", integer(0));
    ctx.assert_eq("(- 1 2)", integer(-1));
    ctx.assert_eq("(- 1)", integer(-1));
    ctx.assert_eq("(- 0 0 0 0)", integer(0));
    ctx.assert_eq("(- (- 1 2) (- 3 4))", integer(0));
    ctx.assert_err("(-)", wrong_variable("-", 1, 0));
    ctx.assert_err("(- ())", EvaluationError::invalid_argument("-", "number", &Expression::Null));
    ctx.assert_err("(- 1 . 2)", EvaluationError::invalid_argument("-", "list", &cons(&integer(1), &integer(2))));
}

#[test]
fn arithmetic_test_evaluate_divide() {
    let mut ctx = TestContext::new();
    ctx.assert_eq("(/ 20 2)", integer(10));
    ctx.assert_eq("(/ 12 2 3)", integer(2));
    ctx.assert_eq("(/ 1 2)", integer(0));
    ctx.assert_eq("(/ 0 2)", integer(0));
    ctx.assert_eq("(/ 1)", integer(1));
    ctx.assert_eq("(/ 2)", integer(0));
    ctx.assert_eq("(/ -1)", integer(-1));
    ctx.assert_eq("(/ -2)", integer(0));
    ctx.assert_err("(/ 0)", EvaluationError::DivideByZero(Number::Integer(1)));
    ctx.assert_err("(/ 3 0)", EvaluationError::DivideByZero(Number::Integer(3)));
    ctx.assert_eq("(/ (/ 100 2) (/ 15 3))", integer(10));
    ctx.assert_err("(/)", wrong_variable("/", 1, 0));
    ctx.assert_err("(/ ())", EvaluationError::invalid_argument("/", "number", &Expression::Null));
    ctx.assert_err("(/ 1 . 2)", EvaluationError::invalid_argument("/", "list", &cons(&integer(1), &integer(2))));
}

#[test]
fn arithmetic_wraps_and_truncates() {
    let mut ctx = TestContext::new();
    ctx.assert_eq("(+ 2147483647 1)", integer(i32::MIN));
    ctx.assert_eq("(* 65536 65536)", integer(0));
    ctx.assert_eq("(- -2147483648)", integer(i32::MIN));
    ctx.assert_eq("(/ -2147483648 -1)", integer(i32::MIN));
    ctx.assert_eq("(/ -7 2)", integer(-3));
    ctx.assert_eq("(/ 7 -2)", integer(-3));
    ctx.assert_eq("(/ -7 -2)", integer(3));
    ctx.assert_err("(/ 12 2 0 5)", EvaluationError::DivideByZero(Number::Integer(6)));
}

#[test]
fn comparison_test_evaluate_equals() {
    let mut ctx = TestContext::new();
    ctx.assert_eq("(= 1)", boolean(true));
    ctx.assert_eq("(= 1 1)", boolean(true));
    ctx.assert_eq("(= 1 1 1 1 1 1 1)", boolean(true));
    ctx.assert_eq("(= 1 0)", boolean(false));
    ctx.assert_eq("(= (+ 2 2) (* 2 2))", boolean(true));
    ctx.assert_eq("(= (+ 1 2) (* 2 2))", boolean(false));
    ctx.assert_eq("(= (+ 2 2) (* 2 2) (- (* 2 2 2) (+ 1 1 1 1)))", boolean(true));
    ctx.assert_err("(=)", wrong_variable("=", 1, 0));
    ctx.assert_err("(= 'foo)", EvaluationError::invalid_argument("=", "number", &sym("foo")));
}

#[test]
fn test_evaluate_less_than() {
    let mut ctx = TestContext::new();
    ctx.assert_eq("(< 1)", boolean(true));
    ctx.assert_eq("(< 1 2)", boolean(true));
    ctx.assert_eq("(< 2 1)", boolean(false));
    ctx.assert_eq("(< 1 1)", boolean(false));
    ctx.assert_eq("(< 1 2 3 4 5 6 7)", boolean(true));
    ctx.assert_eq("(< (+ 1 1) (* 2 2))", boolean(true));
    ctx.assert_eq("(< (* 2 2) (+ 1 1))", boolean(false));
    ctx.assert_err("(<)", wrong_variable("<", 1, 0));
    ctx.assert_err("(< 'foo)", EvaluationError::invalid_argument("<", "number", &sym("foo")));
}

#[test]
fn test_evaluate_greater_than() {
    let mut ctx = TestContext::new();
    ctx.assert_eq("(> 1)", boolean(true));
    ctx.assert_eq("(> 2 1)", boolean(true));
    ctx.assert_eq("(> 1 2)", boolean(false));
    ctx.assert_eq("(> 2 2)", boolean(false));
    ctx.assert_eq("(> 7 6 5 4 3 2 1)", boolean(true));
    ctx.assert_eq("(> (* 2 2) (+ 1 1))", boolean(true));
    ctx.assert_eq("(> (+ 1 1) (* 2 2))", boolean(false));
    ctx.assert_err("(>)", wrong_variable(">", 1, 0));
    ctx.assert_err("(> 'foo)", EvaluationError::invalid_argument(">", "number", &sym("foo")));
}

#[test]
fn test_evaluate_less_than_or_equal() {
    let mut ctx = TestContext::new();
    ctx.assert_eq("(<= 1)", boolean(true));
    ctx.assert_eq("(<= 1 2)", boolean(true));
    ctx.assert_eq("(<= 2 1)", boolean(false));
    ctx.assert_eq("(<= 1 1)", boolean(true));
    ctx.assert_eq("(<= 1 2 3 4 5 6 7)", boolean(true));
    ctx.assert_eq("(<= 1 1 2 2 3 3)", boolean(true));
    ctx.assert_eq("(<= (+ 1 1) (* 2 2))", boolean(true));
    ctx.assert_eq("(<= (* 2 2) (+ 1 1))", boolean(false));
    ctx.assert_err("(<=)", wrong_variable("<=", 1, 0));
    ctx.assert_err("(<= 'foo)", EvaluationError::invalid_argument("<=", "number", &sym("foo")));
}

#[test]
fn test_evaluate_greater_than_or_equal() {
    let mut ctx = TestContext::new();
    ctx.assert_eq("(>= 1)", boolean(true));
    ctx.assert_eq("(>= 2 1)", boolean(true));
    ctx.assert_eq("(>= 1 2)", boolean(false));
    ctx.assert_eq("(>= 2 2)", boolean(true));
    ctx.assert_eq("(>= 7 6 5 4 3 2 1)", boolean(true));
    ctx.assert_eq("(>= 3 3 2 2 1 1)", boolean(true));
    ctx.assert_eq("(>= (* 2 2) (+ 1 1))", boolean(true));
    ctx.assert_eq("(>= (+ 1 1) (* 2 2))", boolean(false));
    ctx.assert_err("(>=)", wrong_variable(">=", 1, 0));
    ctx.assert_err("(>= 'foo)", EvaluationError::invalid_argument(">=", "number", &sym("foo")));
}

#[test]
fn comparison_checks_every_argument_first() {
    let mut ctx = TestContext::new();
    ctx.assert_err("(< 2 1 'x)", EvaluationError::invalid_argument("<", "number", &sym("x")));
}

#[test]
fn conditional_test_evaluate_cond() {
    let mut ctx = TestContext::new();
    ctx.assert_eq("(cond)", Expression::Void);
    ctx.assert_eq("(cond (#t 1))", integer(1));
    ctx.assert_eq("(cond (#t #f))", boolean(false));
    ctx.assert_eq("(cond (1 1))", integer(1));
    ctx.assert_eq("(cond (2 1))", integer(1));
    ctx.assert_eq("(cond (2))", integer(2));
    ctx.assert_eq("(cond (#f))", Expression::Void);
    ctx.assert_eq("(cond (#f #t))", Expression::Void);
    ctx.assert_eq("(cond (#f) (2))", integer(2));
    ctx.assert_eq("(cond ((eq? 1 1) 2) (3))", integer(2));
    ctx.assert_eq("(cond (#f #f) (else #f #t))", boolean(true));
    ctx.assert_err("(cond 5)", EvaluationError::invalid_argument("cond", "list", &integer(5)));
    ctx.assert_err(
        "(cond ())",
        EvaluationError::invalid_argument("cond", "clause is not a test-value pair", &list(&[])),
    );
    ctx.assert_err(
        "(cond (else))",
        EvaluationError::invalid_argument("cond", "missing expressions in else clause", &list(&[sym("else")])),
    );
}

#[test]
fn conditional_test_evaluate_cond_equal_gt() {
    let mut ctx = TestContext::new();
    ctx.assert_eq("(cond (#t => 1))", integer(1));
    ctx.assert_eq("(cond (1 => 1))", integer(1));
    ctx.assert_eq("(cond (2 => 1))", integer(1));
    ctx.assert_eq("(cond (#f => #t))", Expression::Void);
    ctx.assert_eq("(cond (#f) (2 => 3))", integer(3));
}

#[test]
fn conditional_test_evaluate_cond_else() {
    let mut ctx = TestContext::new();
    ctx.assert_eq("(cond (else 1))", integer(1));
    ctx.assert_eq("(cond (else #f))", boolean(false));
    ctx.assert_eq("(cond (#f) (else ()))", list(&[]));
    ctx.assert_eq("(cond ((eq? 1 2) => 1) ((eq? 2 3) => 2) ((eq? 3 4) 3) (else 4))", integer(4));
}

#[test]
fn cond_dispatch_examples() {
    let mut ctx = TestContext::new();
    ctx.assert_eq("(cond (#f 1) (2 3) (else 4))", integer(3));
    ctx.assert_eq("(cond (#f 1))", Expression::Void);
}

#[test]
fn define_test_evaluate_define() {
    let mut ctx = TestContext::new();
    ctx.assert_eq("(define foo (+ 1 1))", Expression::Void);
    assert_eq!(ctx.scope.lookup("foo"), Ok(integer(2)));
    ctx.assert_eq("foo", integer(2));
    ctx.assert_err("bar", EvaluationError::UndefinedSymbol("bar".to_string()));
}

#[test]
fn test_evaluate_define_arguments() {
    let mut ctx = TestContext::new();
    ctx.assert_err("(define)", EvaluationError::WrongNumberOfArguments("define".to_string(), 2, 0));
    ctx.assert_err("(define foo)", EvaluationError::WrongNumberOfArguments("define".to_string(), 2, 1));
}

#[test]
fn define_test_evaluate_define_non_symbols() {
    let mut ctx = TestContext::new();
    ctx.assert_err("(define 6 1)", EvaluationError::invalid_argument("define", "symbol", &integer(6)));
    ctx.assert_err("(define #t 1)", EvaluationError::invalid_argument("define", "symbol", &boolean(true)));
    ctx.assert_err("(define #f 1)", EvaluationError::invalid_argument("define", "symbol", &boolean(false)));
}

#[test]
fn test_evaluate_eq() {
    let mut ctx = TestContext::new();
    ctx.assert_eq("(eq? 1 1)", boolean(true));
    ctx.assert_eq("(eq? 'foo 'foo)", boolean(true));
    ctx.assert_eq("(eq? 'foo 'bar)", boolean(false));
    ctx.assert_eq("(eq? (eq? 1 1) #t)", boolean(true));
    ctx.assert_eq("(eq? (eq? 1 1) #true)", boolean(true));
}

#[test]
fn lambda_test_lambda_inline() {
    let mut ctx = TestContext::new();
    ctx.assert_eq("((lambda (x) (+ x 1)) 5)", integer(6));
    ctx.assert_eq("((lambda x (cons 0 x)) 1 2)", list(&[integer(0), integer(1), integer(2)]));
    ctx.assert_eq("((lambda (x . y) (cons x y)) 1 2 3)", list(&[integer(1), integer(2), integer(3)]));
    ctx.assert_eq("((lambda () 1 2 3))", integer(3));
    ctx.assert_err(
        "((lambda (x) x))",
        EvaluationError::WrongNumberOfArguments("#<procedure>".to_string(), 1, 0),
    );
    ctx.assert_err(
        "((lambda (x) x) 1 2)",
        EvaluationError::WrongNumberOfArguments("#<procedure>".to_string(), 1, 2),
    );
    ctx.assert_err("((lambda (x . y) x))", wrong_variable("#<procedure>", 1, 0));
    ctx.assert_err("(lambda 1 1)", EvaluationError::invalid_argument("lambda", "list", &integer(1)));
    ctx.assert_err(
        "(lambda (1) 1)",
        EvaluationError::invalid_argument("lambda", "list of symbols", &list(&[integer(1)])),
    );
    ctx.assert_err("(lambda (x . 2) 2)", EvaluationError::invalid_argument("lambda", "symbol", &integer(2)));
}

#[test]
fn lambda_test_lambda_define() {
    let mut ctx = TestContext::new();
    ctx.exec("(define square (lambda (a) (* a a)))");
    for i in -20..20 {
        ctx.assert_eq(&format!("(square {})", i), integer(i * i));
    }
}

#[test]
fn square_over_closed_range() {
    let mut ctx = TestContext::new();
    ctx.exec("(define square (lambda (a) (* a a)))");
    for i in -20..=20 {
        ctx.assert_eq(&format!("(square {})", i), integer(i * i));
    }
}

#[test]
fn lambda_test_lambda_fibonacci_naive() {
    let mut ctx = TestContext::new();
    ctx.exec(
        "
(define fibonacci (lambda (index)
  (cond
    ((eq? index 0) 0)
    ((eq? index 1) 1)
    (else (+
      (fibonacci (- index 1))
      (fibonacci (- index 2))
    ))
  )
))",
    );
    ctx.assert_eq("(fibonacci 0)", integer(0));
    ctx.assert_eq("(fibonacci 1)", integer(1));
    ctx.assert_eq("(fibonacci 2)", integer(1));
    ctx.assert_eq("(fibonacci 3)", integer(2));
    ctx.assert_eq("(fibonacci 4)", integer(3));
    ctx.assert_eq("(fibonacci 5)", integer(5));
    ctx.assert_eq("(fibonacci 6)", integer(8));
}

#[test]
fn lambda_test_lambda_tail_call_recursion() {
    let mut ctx = TestContext::new();
    ctx.exec(
        "
(define loopy (lambda (index)
  (cond
    ((eq? index 0) 0)
    (else (loopy (- index 1)))
  )
))",
    );
    ctx.assert_eq("(loopy 0)", integer(0));
    ctx.assert_eq("(loopy 1)", integer(0));
    ctx.assert_eq("(loopy 2)", integer(0));
    ctx.assert_eq("(loopy 10000)", integer(0));
}

#[test]
fn test_lambda_not_a_procedure() {
    let mut ctx = TestContext::new();
    ctx.exec("(define foo 1)");
    ctx.assert_err("(foo)", EvaluationError::NotAProcedure(integer(1)));
}

#[test]
fn pair_test_cons() {
    let mut ctx = TestContext::new();
    ctx.assert_eq("(cons 1 2)", cons(&integer(1), &integer(2)));
    ctx.assert_eq("(cons 1 2)", cons(&integer(1), &integer(2)));
    ctx.assert_eq("(cons (eq? 1 1) (eq? 1 2))", cons(&boolean(true), &boolean(false)));
    ctx.assert_eq("(cons 'foo '())", list(&[sym("foo")]));
    ctx.assert_eq("(eq? (cons 'foo '()) '(foo))", boolean(true));
}

#[test]
fn cons_test_cons() {
    let mut ctx = TestContext::new();
    ctx.assert_eq("(cons 1 2)", cons(&integer(1), &integer(2)));
    ctx.assert_eq("(cons 1 2)", cons(&integer(1), &integer(2)));
    ctx.assert_eq("(cons (eq? 1 1) (eq? 1 2))", cons(&boolean(true), &boolean(false)));
    ctx.assert_eq("(cons 'foo '())", list(&[sym("foo")]));
    ctx.assert_eq("(eq? (cons 'foo '()) '(foo))", boolean(true));
}

#[test]
fn pair_test_car() {
    let mut ctx = TestContext::new();
    ctx.assert_eq("(car '(1))", integer(1));
    ctx.assert_eq("(car '(1 2 3))", integer(1));
    ctx.assert_eq("(car (cons 'foo 'bar))", sym("foo"));
}

#[test]
fn pair_test_cdr() {
    let mut ctx = TestContext::new();
    ctx.assert_eq("(cdr '(1))", Expression::Null);
    ctx.assert_eq("(cdr '(1 2 3))", list(&[integer(2), integer(3)]));
    ctx.assert_eq("(cdr (cons 'foo 'bar))", sym("bar"));
}

#[test]
fn cdr_test_cdr() {
    let mut ctx = TestContext::new();
    ctx.assert_eq("(cdr '(1))", Expression::Null);
    ctx.assert_eq("(cdr '(1 2 3))", list(&[integer(2), integer(3)]));
    ctx.assert_eq("(cdr (cons 'foo 'bar))", sym("bar"));
}

#[test]
fn car_and_cdr_reject_non_pairs() {
    let mut ctx = TestContext::new();
    ctx.assert_err("(car 5)", EvaluationError::invalid_argument("car", "list", &integer(5)));
    ctx.assert_err("(cdr '())", EvaluationError::invalid_argument("cdr", "list", &Expression::Null));
}

#[test]
fn quote_test_quote() {
    let mut ctx = TestContext::new();
    ctx.assert_eq("'foo", sym("foo"));
    ctx.assert_eq("'(foo)", list(&[sym("foo")]));
    ctx.assert_eq("(eq? (eq? 1 1) (eq? 1 1))", boolean(true));
    ctx.assert_eq("(eq? '(eq? 1 1) (eq? 1 1))", boolean(false));
    ctx.assert_eq("(eq? '(a b c) (quote (a b c)))", boolean(true));
    ctx.assert_eq("(eq? '((a b) (c d)) (quote ((a b) (c d)) ))", boolean(true));
}

#[test]
fn outer_representation_reads_back() {
    let mut ctx = TestContext::new();
    for source in ["42", "#t", "'foo", "'(1 2 3)"] {
        let value = ctx.run(source).unwrap();
        assert_eq!(value.outer_representation(), source);
    }
}

#[test]
fn error_messages() {
    assert_eq!(
        EvaluationError::WrongNumberOfVariableArguments("+".to_string(), 1, 0).message(),
        "wrong number of arguments for +: expected 1 or more, got 0"
    );
    assert_eq!(
        EvaluationError::WrongNumberOfArguments("car".to_string(), 1, 2).message(),
        "wrong number of arguments for car: expected 1, got 2"
    );
    assert_eq!(
        EvaluationError::invalid_argument("+", "number", &list(&[integer(1)])).message(),
        "invalid argument for +: expected number, got (1)"
    );
    assert_eq!(EvaluationError::UndefinedSymbol("x".to_string()).message(), "undefined symbol x");
    assert_eq!(EvaluationError::DivideByZero(Number::Integer(-3)).message(), "attempted to divide -3 by 0");
    assert_eq!(EvaluationError::NotAProcedure(sym("a")).message(), "expected a procedure, given 'a");
}

#[test]
fn lexical_layers_do_not_leak() {
    let mut ctx = TestContext::new();
    ctx.exec("(define f (lambda (x) (define y x) y))");
    ctx.assert_eq("(f 5)", integer(5));
    ctx.assert_err("y", EvaluationError::UndefinedSymbol("y".to_string()));
    ctx.assert_err("x", EvaluationError::UndefinedSymbol("x".to_string()));
}
