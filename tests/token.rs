use ticklisp::{consume_non_tokens, pop_token};

fn popped(t: &str, rest: &str) -> (Option<String>, String) {
    (Some(String::from(t)), String::from(rest))
}

#[test]
fn test_consume_non_tokens() {
    assert_eq!(consume_non_tokens(""), (None, String::new()));
    assert_eq!(consume_non_tokens("   "), (None, String::new()));
    assert_eq!(consume_non_tokens(" \n \n "), (None, String::new()));
    assert_eq!(consume_non_tokens("; no newline"), (None, String::new()));
    assert_eq!(consume_non_tokens("; newline\n"), (None, String::new()));
    assert_eq!(consume_non_tokens("("), (Some('('), String::new()));
    assert_eq!(consume_non_tokens(")"), (Some(')'), String::new()));
    assert_eq!(consume_non_tokens("'"), (Some('\''), String::new()));
    assert_eq!(consume_non_tokens("aaaa"), (Some('a'), String::from("aaa")));
    assert_eq!(consume_non_tokens("  ; bbb \n  aaaa"), (Some('a'), String::from("aaa")));
}

#[test]
fn test_pop_token() {
    assert_eq!(pop_token(""), (None, String::new()));
    assert_eq!(pop_token("("), popped("(", ""));
    assert_eq!(pop_token(")"), popped(")", ""));
    assert_eq!(pop_token("'"), popped("'", ""));
    assert_eq!(pop_token("aaaa"), popped("aaaa", ""));
}

#[test]
fn test_pop_token_trim_whitespace() {
    assert_eq!(pop_token(" "), (None, String::new()));
    assert_eq!(pop_token(" \n("), popped("(", ""));
    assert_eq!(pop_token(" \t )"), popped(")", ""));
    assert_eq!(pop_token("  ' "), popped("'", " "));
    assert_eq!(pop_token("    aaaa"), popped("aaaa", ""));
}

#[test]
fn test_pop_token_multiple_tokens() {
    assert_eq!(pop_token("()"), popped("(", ")"));
    assert_eq!(pop_token(")("), popped(")", "("));
    assert_eq!(pop_token("(a123"), popped("(", "a123"));
    assert_eq!(pop_token("+++)"), popped("+++", ")"));
    assert_eq!(pop_token("'()"), popped("'", "()"));
}

#[test]
fn test_pop_token_comments() {
    assert_eq!(pop_token(";"), (None, String::new()));
    assert_eq!(pop_token(" ;  "), (None, String::new()));
    assert_eq!(pop_token(" ; foobar "), (None, String::new()));
    assert_eq!(pop_token(";\n"), (None, String::new()));
    assert_eq!(pop_token(";\n\n\n"), (None, String::new()));
    assert_eq!(pop_token("; comment \n("), popped("(", ""));
}

#[test]
fn pop_token_unicode_whitespace() {
    assert_eq!(pop_token("\u{3000}abc\u{a0}def"), popped("abc", "\u{a0}def"));
}
