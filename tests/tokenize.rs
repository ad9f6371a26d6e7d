use progcalc::lexer::{tokenize, LexError, Token};

#[test]
fn decimal_literal_is_one_token() {
    assert_eq!(tokenize("12345"), Ok(vec![Token::Integer(12345)]));
    assert_eq!(tokenize("0"), Ok(vec![Token::Integer(0)]));
    assert_eq!(tokenize("007"), Ok(vec![Token::Integer(7)]));
}

#[test]
fn largest_decimal_literal() {
    assert_eq!(tokenize("9223372036854775807"), Ok(vec![Token::Integer(i64::MAX)]));
}

#[test]
fn literal_beyond_i64_is_an_error() {
    assert_eq!(tokenize("9223372036854775808"), Err(LexError::Overflow));
    assert_eq!(tokenize("8E"), Err(LexError::Overflow));
}

#[test]
fn base_prefixes() {
    assert_eq!(tokenize("0x1A"), Ok(vec![Token::Integer(26)]));
    assert_eq!(tokenize("0b101"), Ok(vec![Token::Integer(5)]));
    assert_eq!(tokenize("0c17"), Ok(vec![Token::Integer(15)]));
    assert_eq!(tokenize("0q13"), Ok(vec![Token::Integer(7)]));
    assert_eq!(tokenize("0xff"), Ok(vec![Token::Integer(255)]));
}

#[test]
fn prefix_without_digits_is_zero() {
    assert_eq!(tokenize("0x"), Ok(vec![Token::Integer(0)]));
}

#[test]
fn digit_outside_base_starts_a_new_token() {
    assert_eq!(tokenize("0b12"), Ok(vec![Token::Integer(1), Token::Integer(2)]));
}

#[test]
fn magnitude_suffixes() {
    assert_eq!(tokenize("2K"), Ok(vec![Token::Integer(2048)]));
    assert_eq!(tokenize("1M"), Ok(vec![Token::Integer(1048576)]));
    assert_eq!(tokenize("1g"), Ok(vec![Token::Integer(1073741824)]));
    assert_eq!(tokenize("1T"), Ok(vec![Token::Integer(1099511627776)]));
    assert_eq!(tokenize("1p"), Ok(vec![Token::Integer(1125899906842624)]));
    assert_eq!(tokenize("7E"), Ok(vec![Token::Integer(7 * 1152921504606846976)]));
    assert_eq!(tokenize("0K"), Ok(vec![Token::Integer(0)]));
}

#[test]
fn suffix_takes_one_character() {
    assert_eq!(
        tokenize("1KB"),
        Ok(vec![Token::Integer(1024), Token::Ident(String::from("B"))])
    );
}

#[test]
fn identifiers_keep_their_text() {
    assert_eq!(
        tokenize("res0 + zażółć"),
        Ok(vec![
            Token::Ident(String::from("res0")),
            Token::Plus,
            Token::Ident(String::from("zażółć")),
        ])
    );
}

#[test]
fn whitespace_is_skipped() {
    assert_eq!(tokenize(" \t1 \n"), Ok(vec![Token::Integer(1)]));
    assert_eq!(tokenize(""), Ok(vec![]));
}

#[test]
fn shift_operators_and_comparisons() {
    assert_eq!(
        tokenize("<< < >> >"),
        Ok(vec![Token::DoubleLt, Token::Lt, Token::DoubleGt, Token::Gt])
    );
    assert_eq!(tokenize("<<<"), Ok(vec![Token::DoubleLt, Token::Lt]));
}

#[test]
fn punctuation_tokens() {
    assert_eq!(
        tokenize("+-*/=&|^.'()"),
        Ok(vec![
            Token::Plus,
            Token::Minus,
            Token::Star,
            Token::Slash,
            Token::Eq,
            Token::And,
            Token::Pipe,
            Token::Caret,
            Token::Dot,
            Token::Apostrophe,
            Token::LeftParen,
            Token::RightParen,
        ])
    );
}

#[test]
fn unknown_character_is_an_error() {
    assert_eq!(tokenize("1 # 2"), Err(LexError::UnknownCharacter('#')));
    assert_eq!(tokenize("1 + $"), Err(LexError::UnknownCharacter('$')));
}

#[test]
fn non_decimal_numeric_character_is_an_error() {
    assert_eq!(tokenize("٣"), Err(LexError::UnknownCharacter('٣')));
    assert_eq!(tokenize("1+½"), Err(LexError::UnknownCharacter('½')));
    assert_eq!(tokenize("x½"), Ok(vec![Token::Ident(String::from("x½"))]));
}
