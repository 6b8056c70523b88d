//! The tokenizer: white space, comments, and the bounds of the next token.
use vstd::prelude::*;

verus! {

/// Unicode white space: the characters that `char::is_whitespace` accepts.
pub open spec fn is_white(c: char) -> bool {
    let u = c as u32;
    ||| 0x9 <= u <= 0xd
    ||| u == 0x20
    ||| u == 0x85
    ||| u == 0xa0
    ||| u == 0x1680
    ||| 0x2000 <= u <= 0x200a
    ||| u == 0x2028
    ||| u == 0x2029
    ||| u == 0x202f
    ||| u == 0x205f
    ||| u == 0x3000
}

/// Characters that end a symbol or number token.
pub open spec fn is_delimiter(c: char) -> bool {
    c == '(' || c == ')' || is_white(c)
}

/// Characters that are a token by themselves.
pub open spec fn is_single(c: char) -> bool {
    c == '(' || c == ')' || c == '\''
}

/// Where the next token starts at or after `i`: white space and comments
/// (from `;` to the end of the line) are skipped. `s.len()` when none is left.
pub open spec fn token_start(s: Seq<char>, i: nat, in_comment: bool) -> nat
    decreases s.len() - i,
{
    if i >= s.len() {
        s.len()
    } else if in_comment {
        token_start(s, i + 1, s[i as int] != '\n')
    } else if s[i as int] == ';' {
        token_start(s, i + 1, true)
    } else if is_white(s[i as int]) {
        token_start(s, i + 1, false)
    } else {
        i
    }
}

/// Where the run of non-delimiters from `i` ends.
pub open spec fn token_end(s: Seq<char>, i: nat) -> nat
    decreases s.len() - i,
{
    if i >= s.len() {
        s.len()
    } else if is_delimiter(s[i as int]) {
        i
    } else {
        token_end(s, i + 1)
    }
}

/// The bounds of the next token at or after `i`: a single `(`, `)` or `'`,
/// or else a run of characters up to a delimiter.
pub open spec fn next_token(s: Seq<char>, i: nat) -> Option<(nat, nat)> {
    let k = token_start(s, i, false);
    if k >= s.len() {
        None
    } else if is_single(s[k as int]) {
        Some((k, k + 1))
    } else {
        Some((k, token_end(s, k + 1)))
    }
}

pub proof fn lemma_token_start_bounds(s: Seq<char>, i: nat, in_comment: bool)
    requires
        i <= s.len(),
    ensures
        i <= token_start(s, i, in_comment) <= s.len(),
    decreases s.len() - i,
{
    if i < s.len() {
        lemma_token_start_bounds(s, i + 1, s[i as int] != '\n');
        lemma_token_start_bounds(s, i + 1, true);
        lemma_token_start_bounds(s, i + 1, false);
    }
}

pub proof fn lemma_token_end_bounds(s: Seq<char>, i: nat)
    requires
        i <= s.len(),
    ensures
        i <= token_end(s, i) <= s.len(),
    decreases s.len() - i,
{
    if i < s.len() {
        lemma_token_end_bounds(s, i + 1);
    }
}

pub proof fn lemma_next_token_bounds(s: Seq<char>, i: nat)
    requires
        i <= s.len(),
    ensures
        next_token(s, i) matches Some((a, b)) ==> i <= a < b <= s.len(),
{
    lemma_token_start_bounds(s, i, false);
    let k = token_start(s, i, false);
    if k < s.len() {
        lemma_token_end_bounds(s, k + 1);
    }
}

/// Whether `c` is white space, as `char::is_whitespace` decides.
pub fn is_whitespace(c: char) -> (r: bool)
    ensures
        r == is_white(c),
{
    let u = c as u32;
    (0x9 <= u && u <= 0xd) || u == 0x20 || u == 0x85 || u == 0xa0 || u == 0x1680 || (0x2000 <= u && u
        <= 0x200a) || u == 0x2028 || u == 0x2029 || u == 0x202f || u == 0x205f || u == 0x3000
}

/// The characters of `s`.
pub fn chars_of(s: &str) -> (r: Vec<char>)
    ensures
        r@ == s@,
{
    let n = s.unicode_len();
    let mut out: Vec<char> = Vec::new();
    let mut i: usize = 0;
    while i < n
        invariant
            n == s@.len(),
            i <= n,
            out@ == s@.subrange(0, i as int),
        decreases n - i,
    {
        out.push(s.get_char(i));
        i = i + 1;
        assert(out@ =~= s@.subrange(0, i as int));
    }
    assert(out@ =~= s@);
    out
}

/// Where the next token starts at or after `i`.
pub fn skip_non_tokens(s: &Vec<char>, i: usize) -> (r: usize)
    requires
        i <= s@.len(),
    ensures
        r == token_start(s@, i as nat, false),
{
    let mut k = i;
    let mut in_comment = false;
    while k < s.len()
        invariant
            k <= s@.len(),
            token_start(s@, i as nat, false) == token_start(s@, k as nat, in_comment),
        decreases s@.len() - k,
    {
        let c = s[k];
        if in_comment {
            in_comment = c != '\n';
        } else if c == ';' {
            in_comment = true;
        } else if is_whitespace(c) {
        } else {
            return k;
        }
        k = k + 1;
    }
    k
}

/// Where the run of non-delimiters from `i` ends.
pub fn run_end(s: &Vec<char>, i: usize) -> (r: usize)
    requires
        i <= s@.len(),
    ensures
        r == token_end(s@, i as nat),
{
    let mut k = i;
    while k < s.len()
        invariant
            i <= k <= s@.len(),
            token_end(s@, i as nat) == token_end(s@, k as nat),
        decreases s@.len() - k,
    {
        let c = s[k];
        if c == '(' || c == ')' || is_whitespace(c) {
            return k;
        }
        k = k + 1;
    }
    k
}

/// The bounds of the next token at or after `i`.
pub fn find_token(s: &Vec<char>, i: usize) -> (r: Option<(usize, usize)>)
    requires
        i <= s@.len(),
    ensures
        match r {
            Some((a, b)) => next_token(s@, i as nat) == Some((a as nat, b as nat)),
            None => next_token(s@, i as nat) is None,
        },
{
    let k = skip_non_tokens(s, i);
    proof {
        lemma_token_start_bounds(s@, i as nat, false);
    }
    if k >= s.len() {
        None
    } else {
        let c = s[k];
        if c == '(' || c == ')' || c == '\'' {
            Some((k, k + 1))
        } else {
            Some((k, run_end(s, k + 1)))
        }
    }
}

/// The characters of `s` from `from` to `to`, as a string.
pub fn slice_text(s: &str, from: usize, to: usize) -> (r: String)
    requires
        from <= to <= s@.len(),
    ensures
        r@ == s@.subrange(from as int, to as int),
{
    String::from_str(s.substring_char(from, to))
}

/// Skips white space and comments: the first character of the next token,
/// and the text after it.
pub fn consume_non_tokens(string: &str) -> (r: (Option<char>, String))
    ensures
        ({
            let k = token_start(string@, 0, false);
            if k < string@.len() {
                r.0 == Some(string@[k as int]) && r.1@ == string@.subrange(k + 1 as int, string@.len() as int)
            } else {
                r.0 is None && r.1@ == Seq::<char>::empty()
            }
        }),
{
    let chars = chars_of(string);
    let k = skip_non_tokens(&chars, 0);
    proof {
        lemma_token_start_bounds(chars@, 0, false);
    }
    if k < chars.len() {
        (Some(chars[k]), slice_text(string, k + 1, chars.len()))
    } else {
        (None, String::new())
    }
}

/// The next token of `string`, and the text after it.
pub fn pop_token(string: &str) -> (r: (Option<String>, String))
    ensures
        match next_token(string@, 0) {
            Some((a, b)) => r.0 matches Some(t) && t@ == string@.subrange(a as int, b as int) && r.1@
                == string@.subrange(b as int, string@.len() as int),
            None => r.0 is None && r.1@ == Seq::<char>::empty(),
        },
{
    let chars = chars_of(string);
    proof {
        lemma_next_token_bounds(chars@, 0);
    }
    match find_token(&chars, 0) {
        Some((a, b)) => (Some(slice_text(string, a, b)), slice_text(string, b, chars.len())),
        None => (None, String::new()),
    }
}

} // verus!
