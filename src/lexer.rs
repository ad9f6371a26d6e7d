//! Turns one line of text into a sequence of tokens.
use vstd::prelude::*;
use vstd::string::*;

verus! {

/// One lexical unit of the input.
#[derive(Debug, Clone, PartialEq)]
pub enum Token {
    Integer(i64),
    Ident(String),
    Plus,
    Minus,
    Star,
    Slash,
    Eq,
    And,
    Pipe,
    Caret,
    Lt,
    DoubleLt,
    Gt,
    DoubleGt,
    Dot,
    Apostrophe,
    LeftParen,
    RightParen,
}

/// A token with its identifier text seen as a sequence of characters.
pub enum TokenView {
    Integer(i64),
    Ident(Seq<char>),
    Plus,
    Minus,
    Star,
    Slash,
    Eq,
    And,
    Pipe,
    Caret,
    Lt,
    DoubleLt,
    Gt,
    DoubleGt,
    Dot,
    Apostrophe,
    LeftParen,
    RightParen,
}

impl View for Token {
    type V = TokenView;

    open spec fn view(&self) -> TokenView {
        match self {
            Token::Integer(n) => TokenView::Integer(*n),
            Token::Ident(s) => TokenView::Ident(s@),
            Token::Plus => TokenView::Plus,
            Token::Minus => TokenView::Minus,
            Token::Star => TokenView::Star,
            Token::Slash => TokenView::Slash,
            Token::Eq => TokenView::Eq,
            Token::And => TokenView::And,
            Token::Pipe => TokenView::Pipe,
            Token::Caret => TokenView::Caret,
            Token::Lt => TokenView::Lt,
            Token::DoubleLt => TokenView::DoubleLt,
            Token::Gt => TokenView::Gt,
            Token::DoubleGt => TokenView::DoubleGt,
            Token::Dot => TokenView::Dot,
            Token::Apostrophe => TokenView::Apostrophe,
            Token::LeftParen => TokenView::LeftParen,
            Token::RightParen => TokenView::RightParen,
        }
    }
}

/// Why a line could not be tokenized.
#[derive(Debug, Clone, Copy, PartialEq, Eq, Structural)]
pub enum LexError {
    /// A character that starts no token, or a numeric character that is not
    /// a decimal digit.
    UnknownCharacter(char),
    /// A numeric literal whose value does not fit in an `i64`.
    Overflow,
}

/// Whether `c` has the Unicode White_Space property.
pub uninterp spec fn whitespace_char(c: char) -> bool;

/// Whether `c` is in one of the Unicode number categories.
pub uninterp spec fn numeric_char(c: char) -> bool;

/// Whether `c` is alphabetic or numeric in the Unicode sense.
pub uninterp spec fn alphanumeric_char(c: char) -> bool;

/// Relies on `char::is_whitespace`, which depends on the character alone.
#[verifier::external_body]
fn is_whitespace(c: char) -> (r: bool)
    ensures
        r == whitespace_char(c),
{
    c.is_whitespace()
}

/// Relies on `char::is_numeric`, which depends on the character alone.
#[verifier::external_body]
fn is_numeric(c: char) -> (r: bool)
    ensures
        r == numeric_char(c),
{
    c.is_numeric()
}

/// Relies on `char::is_alphanumeric`, which depends on the character alone.
#[verifier::external_body]
fn is_alphanumeric(c: char) -> (r: bool)
    ensures
        r == alphanumeric_char(c),
{
    c.is_alphanumeric()
}

pub open spec fn is_ascii_digit(c: char) -> bool {
    '0' <= c && c <= '9'
}

/// The value of `c` as a digit in `base`, as `char::to_digit` gives it:
/// `0`-`9` and then the letters in either case, and only below `base`.
pub open spec fn digit_value(c: char, base: u32) -> Option<u32> {
    let d: int = if '0' <= c && c <= '9' {
        c as int - '0' as int
    } else if 'a' <= c && c <= 'z' {
        c as int - 'a' as int + 10
    } else if 'A' <= c && c <= 'Z' {
        c as int - 'A' as int + 10
    } else {
        36
    };
    if d < base {
        Some(d as u32)
    } else {
        None
    }
}

/// The base that the letter after a leading `0` selects, if any.
pub open spec fn base_prefix(c: char) -> Option<u32> {
    if c == 'x' {
        Some(16)
    } else if c == 'c' {
        Some(8)
    } else if c == 'q' {
        Some(4)
    } else if c == 'b' {
        Some(2)
    } else {
        None
    }
}

/// The factor of a magnitude suffix: `1024` to the power 1 (`K`) up to 6 (`E`),
/// in either case.
pub open spec fn suffix_factor(c: char) -> Option<i64> {
    if c == 'K' || c == 'k' {
        Some(1024)
    } else if c == 'M' || c == 'm' {
        Some(1048576)
    } else if c == 'G' || c == 'g' {
        Some(1073741824)
    } else if c == 'T' || c == 't' {
        Some(1099511627776)
    } else if c == 'P' || c == 'p' {
        Some(1125899906842624)
    } else if c == 'E' || c == 'e' {
        Some(1152921504606846976)
    } else {
        None
    }
}

/// How many characters from position `j` on are digits in `base`.
pub open spec fn digit_run(s: Seq<char>, j: int, base: u32) -> nat
    decreases s.len() - j,
{
    if 0 <= j < s.len() && digit_value(s[j], base) is Some {
        1 + digit_run(s, j + 1, base)
    } else {
        0
    }
}

pub proof fn lemma_digit_run_bound(s: Seq<char>, j: int, base: u32)
    requires
        0 <= j <= s.len(),
    ensures
        j + digit_run(s, j, base) <= s.len(),
    decreases s.len() - j,
{
    if j < s.len() && digit_value(s[j], base) is Some {
        lemma_digit_run_bound(s, j + 1, base);
    }
}

/// How many characters from position `j` on are alphanumeric.
pub open spec fn alphanumeric_run(s: Seq<char>, j: int) -> nat
    decreases s.len() - j,
{
    if 0 <= j < s.len() && alphanumeric_char(s[j]) {
        1 + alphanumeric_run(s, j + 1)
    } else {
        0
    }
}

pub proof fn lemma_alphanumeric_run_bound(s: Seq<char>, j: int)
    requires
        0 <= j <= s.len(),
    ensures
        j + alphanumeric_run(s, j) <= s.len(),
    decreases s.len() - j,
{
    if j < s.len() && alphanumeric_char(s[j]) {
        lemma_alphanumeric_run_bound(s, j + 1);
    }
}

/// The value of a run of digits in `base`, most significant first.
pub open spec fn digits_value(d: Seq<char>, base: u32) -> int
    decreases d.len(),
{
    if d.len() == 0 {
        0
    } else {
        digits_value(d.drop_last(), base) * base + match digit_value(d.last(), base) {
            Some(v) => v as int,
            None => 0,
        }
    }
}

/// A run of digits is worth no less than any run that starts it.
pub proof fn lemma_digits_value_prefix(d: Seq<char>, k: int, base: u32)
    requires
        0 <= k <= d.len(),
        base >= 1,
    ensures
        0 <= digits_value(d.subrange(0, k), base) <= digits_value(d, base),
    decreases d.len(),
{
    if d.len() > 0 {
        if k == d.len() {
            assert(d.subrange(0, k) =~= d);
            lemma_digits_value_prefix(d.drop_last(), k - 1, base);
        } else {
            lemma_digits_value_prefix(d.drop_last(), k, base);
            assert(d.drop_last().subrange(0, k) =~= d.subrange(0, k));
        }
        lemma_digits_value_prefix(d.drop_last(), d.len() - 1, base);
        assert(d.drop_last().subrange(0, d.len() - 1) =~= d.drop_last());
        let v = digits_value(d.drop_last(), base);
        assert(v * base >= v) by (nonlinear_arith)
            requires
                v >= 0,
                base >= 1,
        ;
    } else {
        assert(d.subrange(0, k) =~= d);
    }
}

/// Whether the literal at `i` starts with a base prefix (`0x`, `0c`, `0q`, `0b`).
pub open spec fn has_base_prefix(s: Seq<char>, i: int) -> bool {
    s[i] == '0' && i + 1 < s.len() && base_prefix(s[i + 1]) is Some
}

/// The factor that the character at `end`, if a magnitude suffix, applies.
pub open spec fn literal_factor(s: Seq<char>, end: int) -> int {
    if 0 <= end < s.len() && suffix_factor(s[end]) is Some {
        suffix_factor(s[end])->0 as int
    } else {
        1
    }
}

/// The numeric literal that starts with the decimal digit at `i`: its value,
/// or why it has none, and the position after it.
pub open spec fn scan_literal(s: Seq<char>, i: int) -> (Result<i64, LexError>, int) {
    let prefixed = has_base_prefix(s, i);
    let base: u32 = if prefixed { base_prefix(s[i + 1])->0 } else { 10 };
    let first = if prefixed { i + 2 } else { i };
    let end = if prefixed { i + 2 + digit_run(s, i + 2, base) } else { i + 1 + digit_run(s, i + 1, base) };
    let value = digits_value(s.subrange(first, end), base);
    let factor = literal_factor(s, end);
    let next = if end < s.len() && suffix_factor(s[end]) is Some { end + 1 } else { end };
    if value * factor <= i64::MAX {
        (Ok((value * factor) as i64), next)
    } else {
        (Err(LexError::Overflow), next)
    }
}

/// Puts `pre` in front of the tokens of a successful result.
pub open spec fn prepend(pre: Seq<TokenView>, r: Result<Seq<TokenView>, LexError>) -> Result<Seq<TokenView>, LexError> {
    match r {
        Ok(t) => Ok(pre + t),
        Err(e) => Err(e),
    }
}

/// The single-character token that `c` stands for, if any (`<` and `>` aside).
pub open spec fn punctuation(c: char) -> Option<TokenView> {
    if c == '+' {
        Some(TokenView::Plus)
    } else if c == '-' {
        Some(TokenView::Minus)
    } else if c == '*' {
        Some(TokenView::Star)
    } else if c == '/' {
        Some(TokenView::Slash)
    } else if c == '=' {
        Some(TokenView::Eq)
    } else if c == '&' {
        Some(TokenView::And)
    } else if c == '|' {
        Some(TokenView::Pipe)
    } else if c == '^' {
        Some(TokenView::Caret)
    } else if c == '.' {
        Some(TokenView::Dot)
    } else if c == '\'' {
        Some(TokenView::Apostrophe)
    } else if c == '(' {
        Some(TokenView::LeftParen)
    } else if c == ')' {
        Some(TokenView::RightParen)
    } else {
        None
    }
}

/// The tokens of `s` from position `i` on, or the first error there.
pub open spec fn lex_from(s: Seq<char>, i: int) -> Result<Seq<TokenView>, LexError>
    decreases s.len() - i,
{
    if i < 0 || i >= s.len() {
        Ok(Seq::empty())
    } else {
        let c = s[i];
        if is_ascii_digit(c) {
            proof {
                lemma_digit_run_bound(s, i + 1, 10);
                if i + 2 <= s.len() {
                    lemma_digit_run_bound(s, i + 2, base_prefix(s[i + 1])->0);
                }
            }
            let (lit, next) = scan_literal(s, i);
            match lit {
                Ok(v) => prepend(seq![TokenView::Integer(v)], lex_from(s, next)),
                Err(e) => Err(e),
            }
        } else if whitespace_char(c) {
            lex_from(s, i + 1)
        } else if numeric_char(c) {
            Err(LexError::UnknownCharacter(c))
        } else if alphanumeric_char(c) {
            let end = i + 1 + alphanumeric_run(s, i + 1);
            proof {
                lemma_alphanumeric_run_bound(s, i + 1);
            }
            prepend(seq![TokenView::Ident(s.subrange(i, end))], lex_from(s, end))
        } else if c == '<' {
            if i + 1 < s.len() && s[i + 1] == '<' {
                prepend(seq![TokenView::DoubleLt], lex_from(s, i + 2))
            } else {
                prepend(seq![TokenView::Lt], lex_from(s, i + 1))
            }
        } else if c == '>' {
            if i + 1 < s.len() && s[i + 1] == '>' {
                prepend(seq![TokenView::DoubleGt], lex_from(s, i + 2))
            } else {
                prepend(seq![TokenView::Gt], lex_from(s, i + 1))
            }
        } else {
            match punctuation(c) {
                Some(t) => prepend(seq![t], lex_from(s, i + 1)),
                None => Err(LexError::UnknownCharacter(c)),
            }
        }
    }
}

/// The tokens of a whole line, or the first error in it.
pub open spec fn lex(s: Seq<char>) -> Result<Seq<TokenView>, LexError> {
    lex_from(s, 0)
}

/// What a tokenizer result is seen as.
pub open spec fn lexed(r: Result<Vec<Token>, LexError>) -> Result<Seq<TokenView>, LexError> {
    match r {
        Ok(ts) => Ok(ts@.map_values(|t: Token| t@)),
        Err(e) => Err(e),
    }
}

/// `char::to_digit`: the value of `c` as a digit in `base`.
fn to_digit(c: char, base: u32) -> (r: Option<u32>)
    requires
        base <= 36,
    ensures
        r == digit_value(c, base),
{
    let d: u32 = if '0' <= c && c <= '9' {
        c as u32 - '0' as u32
    } else if 'a' <= c && c <= 'z' {
        c as u32 - 'a' as u32 + 10
    } else if 'A' <= c && c <= 'Z' {
        c as u32 - 'A' as u32 + 10
    } else {
        36
    };
    if d < base {
        Some(d)
    } else {
        None
    }
}

fn base_of_prefix(c: char) -> (r: Option<u32>)
    ensures
        r == base_prefix(c),
{
    if c == 'x' {
        Some(16)
    } else if c == 'c' {
        Some(8)
    } else if c == 'q' {
        Some(4)
    } else if c == 'b' {
        Some(2)
    } else {
        None
    }
}

fn factor_of_suffix(c: char) -> (r: Option<i64>)
    ensures
        r == suffix_factor(c),
{
    if c == 'K' || c == 'k' {
        Some(1024)
    } else if c == 'M' || c == 'm' {
        Some(1048576)
    } else if c == 'G' || c == 'g' {
        Some(1073741824)
    } else if c == 'T' || c == 't' {
        Some(1099511627776)
    } else if c == 'P' || c == 'p' {
        Some(1125899906842624)
    } else if c == 'E' || c == 'e' {
        Some(1152921504606846976)
    } else {
        None
    }
}

/// A run worth more than `i64::MAX` stays so under any magnitude suffix.
proof fn lemma_scaled_beyond(v: int, s: Seq<char>, end: int)
    requires
        v > i64::MAX,
    ensures
        v * literal_factor(s, end) > i64::MAX,
{
    let f = literal_factor(s, end);
    assert(v * f >= v) by (nonlinear_arith)
            requires
                v >= 0,
                f >= 1,
        ;
}

/// Reads the numeric literal that starts with the decimal digit at `i`.
/// The position is exact where a value is returned.
fn read_literal(input: &str, n: usize, i: usize) -> (r: (Result<i64, LexError>, usize))
    requires
        n == input@.len(),
        i < n,
        is_ascii_digit(input@[i as int]),
    ensures
        r.0 == scan_literal(input@, i as int).0,
        r.0 is Ok ==> r.1 == scan_literal(input@, i as int).1,
        r.0 is Ok ==> i < r.1 <= n,
{
    let ghost s = input@;
    let mut base: u32 = 10;
    let mut j: usize = i;
    if i + 1 < n && input.get_char(i) == '0' {
        match base_of_prefix(input.get_char(i + 1)) {
            Some(b) => {
                base = b;
                j = i + 2;
            },
            None => {},
        }
    }
    let ghost first = j as int;
    let ghost prefixed = has_base_prefix(s, i as int);
    proof {
        lemma_digit_run_bound(s, i as int + 1, 10);
        if prefixed {
            lemma_digit_run_bound(s, i as int + 2, base);
        } else {
            assert(digit_value(s[i as int], 10) is Some);
        }
        assert(s.subrange(first, first) =~= Seq::<char>::empty());
    }
    let ghost stop = if prefixed { i + 2 + digit_run(s, i + 2, base) } else { i + 1 + digit_run(s, i + 1, base) };
    let mut value: i64 = 0;
    while j < n
        invariant
            n == s.len(),
            s == input@,
            base == 10 || base == 16 || base == 8 || base == 4 || base == 2,
            base == (if prefixed { base_prefix(s[i + 1])->0 } else { 10 }),
            first == (if prefixed { i + 2 } else { i as int }),
            prefixed == has_base_prefix(s, i as int),
            stop == (if prefixed { i + 2 + digit_run(s, i + 2, base) } else { i + 1 + digit_run(s, i + 1, base) }),
            first <= j <= n,
            j + digit_run(s, j as int, base) == stop,
            stop <= n,
            value == digits_value(s.subrange(first, j as int), base),
        ensures
            j + digit_run(s, j as int, base) == stop,
            first <= j <= n,
            value == digits_value(s.subrange(first, j as int), base),
            j == stop,
        decreases n - j,
    {
        match to_digit(input.get_char(j), base) {
            None => {
                break;
            },
            Some(d) => {
                let ghost next_digits = s.subrange(first, j as int + 1);
                proof {
                    assert(digit_run(s, j as int, base) == 1 + digit_run(s, j + 1, base));
                    assert(j + 1 <= stop);
                    assert(next_digits.drop_last() =~= s.subrange(first, j as int));
                    lemma_digit_run_bound(s, j as int + 1, base);
                    lemma_digits_value_prefix(s.subrange(first, stop), j + 1 - first, base);
                    assert(s.subrange(first, stop).subrange(0, j + 1 - first) =~= next_digits);
                }
                let scaled = match value.checked_mul(base as i64) {
                    Some(v) => v,
                    None => {
                        proof {
                            assert(value * base <= digits_value(next_digits, base)) by (nonlinear_arith)
                                requires
                                    digits_value(next_digits, base) == value * base + d,
                                    d >= 0,
                            ;
                            lemma_scaled_beyond(digits_value(s.subrange(first, stop), base), s, stop);
                            assert(digits_value(s.subrange(first, stop), base) > i64::MAX);
                        }
                        return (Err(LexError::Overflow), j);
                    },
                };
                match scaled.checked_add(d as i64) {
                    Some(v) => {
                        value = v;
                    },
                    None => {
                        proof {
                            lemma_scaled_beyond(digits_value(s.subrange(first, stop), base), s, stop);
                            assert(digits_value(s.subrange(first, stop), base) > i64::MAX);
                        }
                        return (Err(LexError::Overflow), j);
                    },
                }
                j = j + 1;
            },
        }
    }
    let mut factor: i64 = 1;
    if j < n {
        match factor_of_suffix(input.get_char(j)) {
            Some(f) => {
                factor = f;
                j = j + 1;
            },
            None => {},
        }
    }
    proof {
        lemma_digits_value_prefix(s.subrange(first, stop), 0, base);
    }
    match value.checked_mul(factor) {
        Some(v) => (Ok(v), j),
        None => (Err(LexError::Overflow), j),
    }
}

proof fn lemma_decimal_run(s: Seq<char>, j: int)
    requires
        0 <= j <= s.len(),
        forall|k: int| 0 <= k < s.len() ==> is_ascii_digit(#[trigger] s[k]),
    ensures
        digit_run(s, j, 10) == s.len() - j,
    decreases s.len() - j,
{
    if j < s.len() {
        lemma_decimal_run(s, j + 1);
    }
}

/// A non-empty run of decimal digits, with no suffix and a value that fits
/// in an `i64`, is read as exactly one integer token of that value.
pub proof fn lemma_decimal_literal(s: Seq<char>)
    requires
        s.len() > 0,
        forall|k: int| 0 <= k < s.len() ==> is_ascii_digit(#[trigger] s[k]),
        digits_value(s, 10) <= i64::MAX,
    ensures
        lex(s) == Ok::<Seq<TokenView>, LexError>(seq![TokenView::Integer(digits_value(s, 10) as i64)]),
{
    lemma_decimal_run(s, 1);
    lemma_digits_value_prefix(s, 0, 10);
    assert(is_ascii_digit(s[0]));
    if s.len() > 1 {
        assert(is_ascii_digit(s[1]));
    }
    assert(!has_base_prefix(s, 0));
    assert(s.subrange(0, s.len() as int) =~= s);
    assert(scan_literal(s, 0) == (Ok::<i64, LexError>(digits_value(s, 10) as i64), s.len() as int));
    assert(seq![TokenView::Integer(digits_value(s, 10) as i64)] + Seq::<TokenView>::empty()
        =~= seq![TokenView::Integer(digits_value(s, 10) as i64)]);
    assert(lex_from(s, s.len() as int) == Ok::<Seq<TokenView>, LexError>(Seq::empty()));
    assert(lex_from(s, 0) == prepend(seq![TokenView::Integer(digits_value(s, 10) as i64)], lex_from(s, s.len() as int)));
}

/// Reads the identifier that starts with the alphanumeric character at `i`.
fn read_identifier(input: &str, n: usize, i: usize) -> (r: (String, usize))
    requires
        n == input@.len(),
        i < n,
    ensures
        r.1 == i + 1 + alphanumeric_run(input@, i + 1),
        r.0@ == input@.subrange(i as int, r.1 as int),
        i < r.1 <= n,
{
    let ghost s = input@;
    let mut j: usize = i + 1;
    proof {
        lemma_alphanumeric_run_bound(s, i + 1);
    }
    while j < n
        invariant
            n == s.len(),
            s == input@,
            i + 1 <= j <= n,
            j + alphanumeric_run(s, j as int) == i + 1 + alphanumeric_run(s, i + 1),
        ensures
            j == i + 1 + alphanumeric_run(s, i + 1),
        decreases n - j,
    {
        if !is_alphanumeric(input.get_char(j)) {
            break;
        }
        j = j + 1;
    }
    let name = String::from_str(input.substring_char(i, j));
    (name, j)
}

/// The token of a one-character operator or parenthesis.
fn punctuation_token(c: char) -> (r: Option<Token>)
    ensures
        match r {
            Some(t) => punctuation(c) == Some(t@),
            None => punctuation(c) is None,
        },
{
    if c == '+' {
        Some(Token::Plus)
    } else if c == '-' {
        Some(Token::Minus)
    } else if c == '*' {
        Some(Token::Star)
    } else if c == '/' {
        Some(Token::Slash)
    } else if c == '=' {
        Some(Token::Eq)
    } else if c == '&' {
        Some(Token::And)
    } else if c == '|' {
        Some(Token::Pipe)
    } else if c == '^' {
        Some(Token::Caret)
    } else if c == '.' {
        Some(Token::Dot)
    } else if c == '\'' {
        Some(Token::Apostrophe)
    } else if c == '(' {
        Some(Token::LeftParen)
    } else if c == ')' {
        Some(Token::RightParen)
    } else {
        None
    }
}

proof fn lemma_push_token(done: Seq<Token>, t: Token, rest: Result<Seq<TokenView>, LexError>)
    ensures
        prepend(done.map_values(|u: Token| u@), prepend(seq![t@], rest))
            == prepend(done.push(t).map_values(|u: Token| u@), rest),
{
    assert(done.push(t).map_values(|u: Token| u@) =~= done.map_values(|u: Token| u@).push(t@));
    if let Ok(ts) = rest {
        assert(done.map_values(|u: Token| u@) + (seq![t@] + ts) =~= done.map_values(|u: Token| u@).push(t@) + ts);
    }
}

/// Splits a line into tokens, left to right.
///
/// Whitespace separates tokens and is dropped. A token that starts with a
/// decimal digit is a numeric literal: an optional base prefix (`0x`, `0c`,
/// `0q`, `0b`), the longest run of digits valid in that base, and an optional
/// magnitude suffix (`K` to `E`, in either case, each a power of 1024). An
/// identifier is the longest run of alphanumeric characters. `<<` and `>>`
/// are read as one token each. The result is the first error, if any.
pub fn tokenize(input: &str) -> (r: Result<Vec<Token>, LexError>)
    ensures
        lexed(r) == lex(input@),
{
    let ghost s = input@;
    let n = input.unicode_len();
    let mut tokens: Vec<Token> = Vec::new();
    let mut i: usize = 0;
    assert(tokens@.map_values(|u: Token| u@) + Seq::<TokenView>::empty() =~= Seq::<TokenView>::empty());
    while i < n
        invariant
            n == s.len(),
            s == input@,
            i <= n,
            lex(s) == prepend(tokens@.map_values(|u: Token| u@), lex_from(s, i as int)),
        decreases n - i,
    {
        let c = input.get_char(i);
        let ghost done = tokens@;
        if '0' <= c && c <= '9' {
            let (lit, next) = read_literal(input, n, i);
            match lit {
                Ok(v) => {
                    let t = Token::Integer(v);
                    proof {
                        lemma_push_token(done, t, lex_from(s, next as int));
                    }
                    tokens.push(t);
                    i = next;
                },
                Err(e) => {
                    return Err(e);
                },
            }
        } else if is_whitespace(c) {
            i = i + 1;
        } else if is_numeric(c) {
            return Err(LexError::UnknownCharacter(c));
        } else if is_alphanumeric(c) {
            let (name, next) = read_identifier(input, n, i);
            let t = Token::Ident(name);
            proof {
                lemma_push_token(done, t, lex_from(s, next as int));
            }
            tokens.push(t);
            i = next;
        } else if c == '<' || c == '>' {
            let double = i + 1 < n && input.get_char(i + 1) == c;
            let t = if c == '<' {
                if double {
                    Token::DoubleLt
                } else {
                    Token::Lt
                }
            } else {
                if double {
                    Token::DoubleGt
                } else {
                    Token::Gt
                }
            };
            let next = if double { i + 2 } else { i + 1 };
            proof {
                lemma_push_token(done, t, lex_from(s, next as int));
            }
            tokens.push(t);
            i = next;
        } else {
            match punctuation_token(c) {
                Some(t) => {
                    proof {
                        lemma_push_token(done, t, lex_from(s, i + 1));
                    }
                    tokens.push(t);
                    i = i + 1;
                },
                None => {
                    return Err(LexError::UnknownCharacter(c));
                },
            }
        }
    }
    proof {
        assert(tokens@.map_values(|u: Token| u@) + Seq::<TokenView>::empty() =~= tokens@.map_values(|u: Token| u@));
    }
    Ok(tokens)
}

} // verus!
