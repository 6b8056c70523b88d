use ticklisp::{Cons, Expression, Number};

fn integer(n: i32) -> Expression {
    Expression::Number(Number::Integer(n))
}

fn cons(a: &Expression, b: &Expression) -> Expression {
    Expression::Cons(Cons::new(a, b))
}

fn check(e: Expression, display: &str, outer: &str) {
    assert_eq!(e.display(), display);
    assert_eq!(e.outer_representation(), outer);
}

#[test]
fn test_fmt_symbol() {
    check(Expression::Symbol("foo".to_string()), "foo", "'foo");
}

#[test]
fn test_fmt_cons() {
    check(cons(&integer(1), &Expression::Null), "(1)", "'(1)");
    check(cons(&integer(1), &integer(2)), "(1 . 2)", "'(1 . 2)");
    check(cons(&integer(1), &cons(&integer(2), &cons(&integer(3), &Expression::Null))), "(1 2 3)", "'(1 2 3)");
}

#[test]
fn test_fmt_number() {
    check(integer(1), "1", "1");
    check(integer(0), "0", "0");
    check(integer(2), "2", "2");
    check(integer(-3), "-3", "-3");
    check(integer(987654321), "987654321", "987654321");
}

#[test]
fn test_fmt_boolean() {
    check(Expression::Boolean(true), "#t", "#t");
    check(Expression::Boolean(false), "#f", "#f");
}

#[test]
fn test_fmt_null() {
    check(Expression::Null, "'()", "'()");
}

#[test]
fn test_fmt_void() {
    check(Expression::Void, "#<void>", "#<void>");
}

#[test]
fn fmt_extreme_integers() {
    check(integer(i32::MIN), "-2147483648", "-2147483648");
    check(integer(i32::MAX), "2147483647", "2147483647");
}

#[test]
fn fmt_nested_lists() {
    let inner = cons(&integer(1), &cons(&Expression::Null, &Expression::Null));
    check(cons(&inner, &integer(2)), "((1 '()) . 2)", "'((1 '()) . 2)");
}
