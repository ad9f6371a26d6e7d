use progcalc::lexer::tokenize;
use progcalc::parser::{parse, Expr, ParseError};

fn parse_str(s: &str) -> Result<Expr, ParseError> {
    parse(&tokenize(s).unwrap())
}

fn num(n: i64) -> Box<Expr> {
    Box::new(Expr::Number(n))
}

#[test]
fn subtraction_is_left_associative() {
    assert_eq!(
        parse_str("8-3-2"),
        Ok(Expr::Sub(Box::new(Expr::Sub(num(8), num(3))), num(2)))
    );
}

#[test]
fn multiplication_binds_tighter_than_addition() {
    assert_eq!(
        parse_str("2+3*4"),
        Ok(Expr::Add(num(2), Box::new(Expr::Mul(num(3), num(4)))))
    );
}

#[test]
fn shift_binds_looser_than_addition() {
    assert_eq!(
        parse_str("2<<1+1"),
        Ok(Expr::BitwiseShl(num(2), Box::new(Expr::Add(num(1), num(1)))))
    );
}

#[test]
fn set_bit_binds_tighter_than_multiplication() {
    assert_eq!(
        parse_str("2*1'3"),
        Ok(Expr::Mul(num(2), Box::new(Expr::BitwiseSetBit(num(1), num(3)))))
    );
}

#[test]
fn assignment_is_loosest() {
    assert_eq!(
        parse_str("x=1|2"),
        Ok(Expr::Assign(
            Box::new(Expr::Ident(String::from("x"))),
            Box::new(Expr::BitwiseOr(num(1), num(2)))
        ))
    );
}

#[test]
fn parentheses_group() {
    assert_eq!(
        parse_str("(8-3)-2"),
        Ok(Expr::Sub(Box::new(Expr::Sub(num(8), num(3))), num(2)))
    );
    assert_eq!(
        parse_str("8-(3-2)"),
        Ok(Expr::Sub(num(8), Box::new(Expr::Sub(num(3), num(2)))))
    );
}

#[test]
fn empty_input_is_malformed() {
    assert_eq!(parse_str(""), Err(ParseError::Malformed));
}

#[test]
fn missing_operand_is_malformed() {
    assert_eq!(parse_str("1+"), Err(ParseError::Malformed));
    assert_eq!(parse_str("*2"), Err(ParseError::Malformed));
    assert_eq!(parse_str("-5"), Err(ParseError::Malformed));
}

#[test]
fn missing_parenthesis_is_malformed() {
    assert_eq!(parse_str("(1+2"), Err(ParseError::Malformed));
}

#[test]
fn leftover_tokens_are_malformed() {
    assert_eq!(parse_str("1 2"), Err(ParseError::Malformed));
    assert_eq!(parse_str("1)"), Err(ParseError::Malformed));
    assert_eq!(parse_str("1 < 2"), Err(ParseError::Malformed));
}
