//! The reader: source text to expressions, against a grammar stated over
//! character sequences.
use vstd::prelude::*;
use crate::text::{decimal, digit_char, digits, outer};
use crate::token::{chars_of, find_token, is_delimiter, is_white, lemma_next_token_bounds, next_token, slice_text, token_end, token_start};
use crate::types::{Cons, Expression, Number};

verus! {

#[derive(Debug, Clone, Copy, PartialEq, Eq, Structural)]
pub enum ParseError {
    UnexpectedEOF,
    UnexpectedClosingParen,
    IllegalUseOfDot,
    /// An integer literal that does not fit in 32 bits.
    IntegerOutOfRange,
}

pub type ParseResult = Result<Expression, ParseError>;

/// The data that source text denotes.
pub enum Syntax {
    Symbol(Seq<char>),
    Pair(Box<Syntax>, Box<Syntax>),
    Integer(int),
    Boolean(bool),
    Null,
}

/// Whether the expression `e` is the datum `d`.
pub open spec fn denotes(e: Expression, d: Syntax) -> bool
    decreases e,
{
    match (e, d) {
        (Expression::Symbol(s), Syntax::Symbol(t)) => s@ == t,
        (Expression::Cons(c), Syntax::Pair(a, b)) => denotes(*c.car, *a) && denotes(*c.cdr, *b),
        (Expression::Number(Number::Integer(n)), Syntax::Integer(m)) => n as int == m,
        (Expression::Boolean(x), Syntax::Boolean(y)) => x == y,
        (Expression::Null, Syntax::Null) => true,
        _ => false,
    }
}

/// Whether a parse result is the expected one.
pub open spec fn parsed_as(r: ParseResult, d: Result<Syntax, ParseError>) -> bool {
    match (r, d) {
        (Ok(e), Ok(x)) => denotes(e, x),
        (Err(a), Err(b)) => a == b,
        _ => false,
    }
}

pub open spec fn is_digit(c: char) -> bool {
    '0' <= c && c <= '9'
}

pub open spec fn all_digits(t: Seq<char>) -> bool {
    forall|i: int| 0 <= i < t.len() ==> is_digit(#[trigger] t[i])
}

/// An integer literal: digits, with an optional leading `-`.
pub open spec fn is_integer_token(t: Seq<char>) -> bool {
    ||| t.len() > 0 && all_digits(t)
    ||| t.len() > 1 && t[0] == '-' && all_digits(t.drop_first())
}

/// The value of a string of decimal digits.
pub open spec fn digits_value(t: Seq<char>) -> nat
    decreases t.len(),
{
    if t.len() == 0 {
        0
    } else {
        digits_value(t.drop_last()) * 10 + (t.last() as nat - '0' as nat) as nat
    }
}

pub open spec fn integer_value(t: Seq<char>) -> int {
    if t.len() > 0 && t[0] == '-' {
        -(digits_value(t.drop_first()) as int)
    } else {
        digits_value(t) as int
    }
}

/// The datum of a token that is not punctuation: an integer, a boolean
/// (`#t`, `#true`, `#f`, `#false`) or else a symbol.
pub open spec fn atom(t: Seq<char>) -> Result<Syntax, ParseError> {
    if is_integer_token(t) {
        if i32::MIN <= integer_value(t) <= i32::MAX {
            Ok(Syntax::Integer(integer_value(t)))
        } else {
            Err(ParseError::IntegerOutOfRange)
        }
    } else if t == "#t"@ || t == "#true"@ {
        Ok(Syntax::Boolean(true))
    } else if t == "#f"@ || t == "#false"@ {
        Ok(Syntax::Boolean(false))
    } else {
        Ok(Syntax::Symbol(t))
    }
}

/// Reads one expression from `s` at `i`: the datum, or the error, and where
/// reading stopped.
pub open spec fn read_expression(s: Seq<char>, i: nat) -> (Result<Syntax, ParseError>, nat)
    decreases s.len() - i, 1nat,
{
    match next_token(s, i) {
        None => (Err(ParseError::UnexpectedEOF), s.len()),
        Some((a, b)) => {
            let t = s.subrange(a as int, b as int);
            if !(i < b <= s.len()) {
                (Err(ParseError::UnexpectedEOF), s.len())
            } else if t == seq!['('] {
                let (r, j) = read_list(s, b);
                match r {
                    Ok(Syntax::Null) => (r, j),
                    Ok(Syntax::Pair(_, _)) => (r, j),
                    Err(_) => (r, j),
                    _ => (Err(ParseError::IllegalUseOfDot), j),
                }
            } else if t == seq![')'] {
                (Err(ParseError::UnexpectedClosingParen), b)
            } else if t == seq!['.'] {
                (Err(ParseError::IllegalUseOfDot), b)
            } else if t == seq!['\''] {
                let (r, j) = read_expression(s, b);
                match r {
                    Ok(q) => (
                        Ok(Syntax::Pair(Box::new(Syntax::Symbol("quote"@)), Box::new(Syntax::Pair(Box::new(q), Box::new(Syntax::Null))))),
                        j,
                    ),
                    Err(e) => (Err(e), j),
                }
            } else {
                (atom(t), b)
            }
        },
    }
}

/// Reads the rest of a list from `s` at `i`, after its opening paren: the
/// elements up to `)`, where `. x)` ends the list with `x` in place of the
/// empty list.
pub open spec fn read_list(s: Seq<char>, i: nat) -> (Result<Syntax, ParseError>, nat)
    decreases s.len() - i, 2nat,
{
    let (r, j) = read_expression(s, i);
    match r {
        Err(ParseError::UnexpectedClosingParen) => (Ok(Syntax::Null), j),
        Err(ParseError::IllegalUseOfDot) => if !(i < j <= s.len()) {
            (Err(ParseError::UnexpectedEOF), j)
        } else {
            let (t, j2) = read_expression(s, j);
            match t {
                Ok(term) => if !(j < j2 <= s.len()) {
                    (Err(ParseError::UnexpectedEOF), j2)
                } else {
                    let (close, j3) = read_expression(s, j2);
                    match close {
                        Err(ParseError::UnexpectedClosingParen) => (Ok(term), j3),
                        _ => (Err(ParseError::IllegalUseOfDot), j3),
                    }
                },
                Err(_) => (Err(ParseError::IllegalUseOfDot), j),
            }
        },
        Ok(car) => if !(i < j <= s.len()) {
            (Err(ParseError::UnexpectedEOF), j)
        } else {
            let (rest, j2) = read_list(s, j);
            match rest {
                Ok(cdr) => (Ok(Syntax::Pair(Box::new(car), Box::new(cdr))), j2),
                Err(e) => (Err(e), j2),
            }
        },
        Err(e) => (Err(e), j),
    }
}

proof fn lemma_digits_value_grows(t: Seq<char>, k: int)
    requires
        0 <= k <= t.len(),
        all_digits(t),
    ensures
        digits_value(t.take(k)) <= digits_value(t),
    decreases t.len() - k,
{
    if k < t.len() {
        lemma_digits_value_grows(t, k + 1);
        assert(t.take(k + 1).drop_last() =~= t.take(k));
        assert(is_digit(t[k]));
    } else {
        assert(t.take(k) =~= t);
    }
}

/// Whether the characters of `s` from `a` to `b` are the text `lit`.
fn span_is(s: &Vec<char>, a: usize, b: usize, lit: &str) -> (r: bool)
    requires
        a <= b <= s@.len(),
    ensures
        r == (s@.subrange(a as int, b as int) == lit@),
{
    let n = lit.unicode_len();
    if b - a != n {
        return false;
    }
    let mut k: usize = 0;
    while k < n
        invariant
            n == lit@.len(),
            b - a == n,
            a <= b <= s@.len(),
            k <= n,
            forall|m: int| 0 <= m < k ==> s@[a + m] == lit@[m],
        decreases n - k,
    {
        if s[a + k] != lit.get_char(k) {
            assert(s@.subrange(a as int, b as int)[k as int] != lit@[k as int]);
            return false;
        }
        k = k + 1;
    }
    assert(s@.subrange(a as int, b as int) =~= lit@);
    true
}

/// The value of the integer literal from `a` to `b`, or `None` when it does
/// not fit in 32 bits.
fn integer_at(s: &Vec<char>, a: usize, b: usize) -> (r: Option<i32>)
    requires
        a < b <= s@.len(),
        is_integer_token(s@.subrange(a as int, b as int)),
    ensures
        ({
            let v = integer_value(s@.subrange(a as int, b as int));
            match r {
                Some(n) => n as int == v,
                None => !(i32::MIN <= v <= i32::MAX),
            }
        }),
{
    let ghost t = s@.subrange(a as int, b as int);
    let negative = s[a] == '-';
    let start = if negative { a + 1 } else { a };
    let ghost d = s@.subrange(start as int, b as int);
    assert(all_digits(d)) by {
        if negative {
            assert(d =~= t.drop_first());
        } else {
            assert(d =~= t);
        }
    }
    assert(integer_value(t) == if negative { -(digits_value(d) as int) } else { digits_value(d) as int }) by {
        if negative {
            assert(d =~= t.drop_first());
        } else {
            assert(d =~= t);
        }
    }
    let limit: i64 = 2147483648;
    let mut value: i64 = 0;
    let mut k = start;
    while k < b
        invariant
            a <= start <= k <= b <= s@.len(),
            d == s@.subrange(start as int, b as int),
            all_digits(d),
            value as int == digits_value(d.take(k - start)),
            0 <= value <= limit,
            limit == 2147483648,
            t == s@.subrange(a as int, b as int),
            integer_value(t) == if negative { -(digits_value(d) as int) } else { digits_value(d) as int },
        decreases b - k,
    {
        let c = s[k];
        assert(d[k - start] == c);
        assert(is_digit(c));
        let digit = (c as u32 - '0' as u32) as i64;
        assert(d.take(k - start + 1).drop_last() =~= d.take(k - start));
        value = value * 10 + digit;
        k = k + 1;
        if value > limit {
            proof {
                lemma_digits_value_grows(d, k - start);
            }
            return None;
        }
    }
    assert(d.take(k - start) =~= d);
    if negative {
        Some((-value) as i32)
    } else if value == limit {
        None
    } else {
        Some(value as i32)
    }
}

fn is_integer_span(s: &Vec<char>, a: usize, b: usize) -> (r: bool)
    requires
        a <= b <= s@.len(),
    ensures
        r == is_integer_token(s@.subrange(a as int, b as int)),
{
    let ghost t = s@.subrange(a as int, b as int);
    if a == b {
        return false;
    }
    let negative = s[a] == '-';
    let start = if negative { a + 1 } else { a };
    assert(t[0] == s@[a as int]);
    if negative && start == b {
        assert(!is_digit(t[0]));
        return false;
    }
    let mut k = start;
    while k < b
        invariant
            a < b,
            a <= start <= k <= b <= s@.len(),
            t == s@.subrange(a as int, b as int),
            negative == (s@[a as int] == '-'),
            start == if negative { a + 1 } else { a as int },
            forall|m: int| start <= m < k ==> is_digit(#[trigger] s@[m]),
        decreases b - k,
    {
        let c = s[k];
        if !('0' <= c && c <= '9') {
            proof {
                if negative {
                    assert(t.drop_first()[k - a - 1] == c);
                    assert(t[0] == '-');
                    assert(!is_digit(t[0]));
                } else {
                    assert(t[k - a] == c);
                }
            }
            return false;
        }
        k = k + 1;
    }
    proof {
        if negative {
            assert forall|m: int| 0 <= m < t.drop_first().len() implies is_digit(#[trigger] t.drop_first()[m]) by {
                assert(t.drop_first()[m] == s@[a + 1 + m]);
            }
        } else {
            assert forall|m: int| 0 <= m < t.len() implies is_digit(#[trigger] t[m]) by {
                assert(t[m] == s@[a + m]);
            }
        }
    }
    true
}

fn atom_at(text: &str, s: &Vec<char>, a: usize, b: usize) -> (r: ParseResult)
    requires
        text@ == s@,
        a < b <= s@.len(),
    ensures
        parsed_as(r, atom(s@.subrange(a as int, b as int))),
{
    if is_integer_span(s, a, b) {
        match integer_at(s, a, b) {
            Some(n) => Ok(Expression::Number(Number::Integer(n))),
            None => Err(ParseError::IntegerOutOfRange),
        }
    } else if span_is(s, a, b, "#t") || span_is(s, a, b, "#true") {
        Ok(Expression::Boolean(true))
    } else if span_is(s, a, b, "#f") || span_is(s, a, b, "#false") {
        Ok(Expression::Boolean(false))
    } else {
        Ok(Expression::Symbol(slice_text(text, a, b)))
    }
}

fn parse_expression_at(text: &str, s: &Vec<char>, i: usize) -> (r: (ParseResult, usize))
    requires
        text@ == s@,
        i <= s@.len(),
    ensures
        parsed_as(r.0, read_expression(s@, i as nat).0),
        r.1 as nat == read_expression(s@, i as nat).1,
        r.1 <= s@.len(),
    decreases s@.len() - i, 1nat,
{
    proof {
        lemma_next_token_bounds(s@, i as nat);
    }
    match find_token(s, i) {
        None => (Err(ParseError::UnexpectedEOF), s.len()),
        Some((a, b)) => {
            let ghost t = s@.subrange(a as int, b as int);
            let single = b - a == 1;
            proof {
                if single {
                    assert(t =~= seq![s@[a as int]]);
                } else {
                    assert(t.len() != 1);
                    assert(t != seq!['(']);
                    assert(t != seq![')']);
                    assert(t != seq!['.']);
                    assert(t != seq!['\'']);
                }
            }
            if single && s[a] == '(' {
                let (r, j) = parse_list(text, s, b);
                assert(t == seq!['(']);
                match r {
                    Ok(Expression::Null) => (r, j),
                    Ok(Expression::Cons(_)) => (r, j),
                    Err(_) => (r, j),
                    _ => (Err(ParseError::IllegalUseOfDot), j),
                }
            } else if single && s[a] == ')' {
                (Err(ParseError::UnexpectedClosingParen), b)
            } else if single && s[a] == '.' {
                (Err(ParseError::IllegalUseOfDot), b)
            } else if single && s[a] == '\'' {
                let (r, j) = parse_expression_at(text, s, b);
                match r {
                    Ok(q) => {
                        let ghost dq = read_expression(s@, b as nat).0->Ok_0;
                        let quoted = Expression::Cons(Cons { car: Box::new(q), cdr: Box::new(Expression::Null) });
                        let quote = Expression::Symbol(String::from_str("quote"));
                        assert(denotes(q, dq));
                        assert(denotes(Expression::Null, Syntax::Null));
                        assert(denotes(quoted, Syntax::Pair(Box::new(dq), Box::new(Syntax::Null))));
                        assert(denotes(quote, Syntax::Symbol("quote"@)));
                        let e = Expression::Cons(Cons { car: Box::new(quote), cdr: Box::new(quoted) });
                        assert(denotes(e, Syntax::Pair(Box::new(Syntax::Symbol("quote"@)), Box::new(Syntax::Pair(Box::new(dq), Box::new(Syntax::Null))))));
                        (Ok(e), j)
                    },
                    Err(e) => (Err(e), j),
                }
            } else {
                (atom_at(text, s, a, b), b)
            }
        },
    }
}

fn parse_list(text: &str, s: &Vec<char>, i: usize) -> (r: (ParseResult, usize))
    requires
        text@ == s@,
        i <= s@.len(),
    ensures
        parsed_as(r.0, read_list(s@, i as nat).0),
        r.1 as nat == read_list(s@, i as nat).1,
        r.1 <= s@.len(),
    decreases s@.len() - i, 2nat,
{
    let (r, j) = parse_expression_at(text, s, i);
    match r {
        Err(ParseError::UnexpectedClosingParen) => (Ok(Expression::Null), j),
        Err(ParseError::IllegalUseOfDot) => {
            if !(i < j && j <= s.len()) {
                return (Err(ParseError::UnexpectedEOF), j);
            }
            let (t, j2) = parse_expression_at(text, s, j);
            match t {
                Ok(term) => {
                    if !(j < j2 && j2 <= s.len()) {
                        return (Err(ParseError::UnexpectedEOF), j2);
                    }
                    let (close, j3) = parse_expression_at(text, s, j2);
                    match close {
                        Err(ParseError::UnexpectedClosingParen) => (Ok(term), j3),
                        _ => (Err(ParseError::IllegalUseOfDot), j3),
                    }
                },
                Err(_) => (Err(ParseError::IllegalUseOfDot), j),
            }
        },
        Ok(car) => {
            if !(i < j && j <= s.len()) {
                return (Err(ParseError::UnexpectedEOF), j);
            }
            let (rest, j2) = parse_list(text, s, j);
            match rest {
                Ok(cdr) => (Ok(Expression::Cons(Cons { car: Box::new(car), cdr: Box::new(cdr) })), j2),
                Err(e) => (Err(e), j2),
            }
        },
        Err(e) => (Err(e), j),
    }
}

/// Reads the first expression of `string`: the result, and the text after it.
pub fn parse_expression(string: &str) -> (r: (ParseResult, String))
    ensures
        ({
            let (d, j) = read_expression(string@, 0);
            parsed_as(r.0, d) && j <= string@.len() && r.1@ == string@.subrange(j as int, string@.len() as int)
        }),
{
    let chars = chars_of(string);
    let (r, j) = parse_expression_at(string, &chars, 0);
    (r, slice_text(string, j, chars.len()))
}

/// Reads the first expression of `string`.
pub fn parse(string: &str) -> (r: ParseResult)
    ensures
        parsed_as(r, read_expression(string@, 0).0),
{
    let chars = chars_of(string);
    let (r, _) = parse_expression_at(string, &chars, 0);
    r
}

proof fn lemma_digit_char(d: nat)
    requires
        d < 10,
    ensures
        is_digit(digit_char(d)),
        digit_char(d) as nat - '0' as nat == d,
{
}

proof fn lemma_digits_read_back(m: nat)
    ensures
        digits(m).len() >= 1,
        all_digits(digits(m)),
        digits_value(digits(m)) == m,
    decreases m,
{
    lemma_digit_char(m % 10);
    if m < 10 {
        lemma_digit_char(m);
        assert(digits(m).drop_last() =~= Seq::<char>::empty());
        assert(digits(m).last() == digit_char(m));
        assert(digits_value(Seq::<char>::empty()) == 0);
    } else {
        lemma_digits_read_back(m / 10);
        let d = digits(m / 10);
        assert(digits(m).drop_last() =~= d);
        assert forall|i: int| 0 <= i < digits(m).len() implies is_digit(#[trigger] digits(m)[i]) by {
            if i < d.len() {
                assert(digits(m)[i] == d[i]);
            }
        }
        assert(digits(m).last() == digit_char(m % 10));
        assert(digits_value(digits(m)) == digits_value(d) * 10 + m % 10);
        assert(m == (m / 10) * 10 + m % 10) by (nonlinear_arith);
    }
}

proof fn lemma_run_to_end(s: Seq<char>, i: nat)
    requires
        i <= s.len(),
        forall|j: int| i <= j < s.len() ==> is_digit(#[trigger] s[j]),
    ensures
        token_end(s, i) == s.len(),
    decreases s.len() - i,
{
    if i < s.len() {
        assert(is_digit(s[i as int]));
        lemma_run_to_end(s, i + 1);
    }
}

/// Every integer reads back from its printed form as the same integer.
pub proof fn lemma_integer_round_trip(n: i32)
    ensures
        read_expression(outer(Expression::Number(Number::Integer(n))), 0).0 == Ok::<Syntax, ParseError>(Syntax::Integer(n as int)),
{
    let s = decimal(n as int);
    assert(outer(Expression::Number(Number::Integer(n))) == s);
    let m: nat = if n < 0 { (-n) as nat } else { n as nat };
    lemma_digits_read_back(m);
    let d = digits(m);
    if n < 0 {
        assert(s == seq!['-'].add(d));
        assert(s.drop_first() =~= d);
        assert forall|j: int| 1 <= j < s.len() implies is_digit(#[trigger] s[j]) by {
            assert(s[j] == d[j - 1]);
        }
    } else {
        assert(s == d);
    }
    assert(!is_white(s[0]) && s[0] != ';');
    assert(token_start(s, 0, false) == 0);
    lemma_run_to_end(s, 1);
    assert(s.subrange(0, s.len() as int) =~= s);
    assert(next_token(s, 0) == Some((0nat, s.len())));
    assert(is_integer_token(s));
    assert(integer_value(s) == n as int);
}

/// Every boolean reads back from its printed form as the same boolean.
pub proof fn lemma_boolean_round_trip(b: bool)
    ensures
        read_expression(outer(Expression::Boolean(b)), 0).0 == Ok::<Syntax, ParseError>(Syntax::Boolean(b)),
{
    reveal_strlit("#t");
    reveal_strlit("#f");
    let s = outer(Expression::Boolean(b));
    assert(s.len() == 2 && s[0] == '#');
    assert(!is_white(s[0]) && s[0] != ';');
    assert(token_start(s, 0, false) == 0);
    assert(!is_delimiter(s[1]));
    assert(token_end(s, 2) == 2);
    assert(token_end(s, 1) == 2);
    assert(s.subrange(0, 2) =~= s);
    assert(!is_integer_token(s)) by {
        assert(!is_digit(s[0]));
    }
    reveal_strlit("#true");
    reveal_strlit("#false");
    if b {
        assert(s == "#t"@);
    } else {
        assert(s == "#f"@);
        assert(s[1] == 'f');
        assert(s != "#t"@);
        assert(s.len() != "#true"@.len());
    }
    assert(s != seq!['(']);
    assert(s != seq![')']);
    assert(s != seq!['.']);
    assert(s != seq!['\'']);
}

} // verus!
