use progcalc::context::Context;
use progcalc::executor::{execute, EvalError, Value};
use progcalc::lexer::{tokenize, Token};
use progcalc::parser::parse;

fn eval_in(ctx: &mut Context, s: &str) -> Result<Value, EvalError> {
    let expr = parse(&tokenize(s).unwrap()).unwrap();
    execute(ctx, &expr)
}

fn eval_fresh(s: &str) -> Result<Value, EvalError> {
    eval_in(&mut Context::new(), s)
}

#[test]
fn associativity() {
    assert_eq!(eval_fresh("8-3-2"), Ok(Value::Number(3)));
}

#[test]
fn precedence_ladder() {
    assert_eq!(eval_fresh("2+3*4"), Ok(Value::Number(14)));
    assert_eq!(eval_fresh("2<<1+1"), Ok(Value::Number(8)));
    assert_eq!(eval_fresh("1|2&3"), Ok(Value::Number(3)));
    assert_eq!(eval_fresh("6^3&5"), Ok(Value::Number(7)));
}

#[test]
fn division_by_zero_leaves_environment() {
    let mut ctx = Context::new();
    assert_eq!(eval_in(&mut ctx, "x=1"), Ok(Value::Number(1)));
    assert_eq!(eval_in(&mut ctx, "5/0"), Err(EvalError::DivisionByZero));
    assert_eq!(eval_in(&mut ctx, "x=5/0"), Err(EvalError::DivisionByZero));
    assert_eq!(ctx.lookup_variable(String::from("x")), Some(Value::Number(1)));
}

#[test]
fn assignment_and_reuse() {
    let mut ctx = Context::new();
    assert_eq!(eval_in(&mut ctx, "x=5"), Ok(Value::Number(5)));
    assert_eq!(ctx.lookup_variable(String::from("x")), Some(Value::Number(5)));
    assert_eq!(eval_in(&mut ctx, "x+1"), Ok(Value::Number(6)));
    assert_eq!(eval_in(&mut ctx, "5=6"), Err(EvalError::InvalidAssignmentTarget));
}

#[test]
fn assignment_is_an_expression() {
    let mut ctx = Context::new();
    assert_eq!(eval_in(&mut ctx, "a=(b=3)"), Ok(Value::Number(3)));
    assert_eq!(ctx.lookup_variable(String::from("a")), Some(Value::Number(3)));
    assert_eq!(ctx.lookup_variable(String::from("b")), Some(Value::Number(3)));
    assert_eq!(eval_in(&mut ctx, "(c=2)*a"), Ok(Value::Number(6)));
    assert_eq!(ctx.lookup_variable(String::from("c")), Some(Value::Number(2)));
}

#[test]
fn nested_assignment_stays_after_later_error() {
    let mut ctx = Context::new();
    assert_eq!(eval_in(&mut ctx, "(y=4)/0"), Err(EvalError::DivisionByZero));
    assert_eq!(ctx.lookup_variable(String::from("y")), Some(Value::Number(4)));
}

#[test]
fn unparenthesised_assignment_chain_groups_to_the_left() {
    let mut ctx = Context::new();
    assert_eq!(eval_in(&mut ctx, "a=b=3"), Err(EvalError::InvalidAssignmentTarget));
}

#[test]
fn assignment_to_a_compound_is_refused() {
    let mut ctx = Context::new();
    assert_eq!(eval_in(&mut ctx, "1+x=5"), Err(EvalError::InvalidAssignmentTarget));
    assert_eq!(ctx.lookup_variable(String::from("x")), None);
}

#[test]
fn unbound_variable() {
    assert_eq!(eval_fresh("y+1"), Err(EvalError::UnboundVariable(String::from("y"))));
}

#[test]
fn arithmetic_operators() {
    assert_eq!(eval_fresh("7-10"), Ok(Value::Number(-3)));
    assert_eq!(eval_fresh("6*7"), Ok(Value::Number(42)));
    assert_eq!(eval_fresh("7/2"), Ok(Value::Number(3)));
    assert_eq!(eval_fresh("(0-7)/2"), Ok(Value::Number(-3)));
    assert_eq!(eval_fresh("7/(0-2)"), Ok(Value::Number(-3)));
}

#[test]
fn bitwise_operators() {
    assert_eq!(eval_fresh("12&10"), Ok(Value::Number(8)));
    assert_eq!(eval_fresh("12^10"), Ok(Value::Number(6)));
    assert_eq!(eval_fresh("12|10"), Ok(Value::Number(14)));
    assert_eq!(eval_fresh("256>>4"), Ok(Value::Number(16)));
    assert_eq!(eval_fresh("(0-16)>>2"), Ok(Value::Number(-4)));
    assert_eq!(eval_fresh("1<<63"), Ok(Value::Number(i64::MIN)));
}

#[test]
fn set_and_unset_bit() {
    assert_eq!(eval_fresh("0'3"), Ok(Value::Number(8)));
    assert_eq!(eval_fresh("15.0"), Ok(Value::Number(14)));
    assert_eq!(eval_fresh("8'3"), Ok(Value::Number(8)));
}

#[test]
fn shift_out_of_range() {
    assert_eq!(eval_fresh("1<<64"), Err(EvalError::ShiftOutOfRange));
    assert_eq!(eval_fresh("1>>(0-1)"), Err(EvalError::ShiftOutOfRange));
    assert_eq!(eval_fresh("1'64"), Err(EvalError::ShiftOutOfRange));
    assert_eq!(eval_fresh("1.64"), Err(EvalError::ShiftOutOfRange));
}

#[test]
fn overflow_is_an_error() {
    assert_eq!(eval_fresh("9223372036854775807+1"), Err(EvalError::Overflow));
    assert_eq!(eval_fresh("0-9223372036854775807-2"), Err(EvalError::Overflow));
    assert_eq!(eval_fresh("4E*4"), Err(EvalError::Overflow));
    assert_eq!(
        eval_fresh("(0-9223372036854775807-1)/(0-1)"),
        Err(EvalError::Overflow)
    );
}

#[test]
fn decimal_text_round_trip() {
    let v = Value::Number(1234567);
    let text = v.to_decimal(0);
    assert_eq!(text, "1234567");
    let tokens = tokenize(&text).unwrap();
    assert_eq!(tokens, vec![Token::Integer(1234567)]);
    let expr = parse(&tokens).unwrap();
    assert_eq!(execute(&mut Context::new(), &expr), Ok(v));
}

#[test]
fn decimal_text_with_width() {
    assert_eq!(Value::Number(42).to_decimal(5), "   42");
    assert_eq!(Value::Number(-7).to_decimal(0), "-7");
    assert_eq!(Value::Number(123456).to_decimal(3), "123456");
    assert_eq!(Value::Number(0).to_decimal(1), "0");
}

#[test]
fn environment_binds_and_overwrites() {
    let mut ctx = Context::new();
    assert_eq!(ctx.lookup_variable(String::from("zeropad")), None);
    ctx.add_variable(String::from("zeropad"), Value::Number(32));
    assert_eq!(ctx.lookup_variable(String::from("zeropad")), Some(Value::Number(32)));
    ctx.add_variable(String::from("zeropad"), Value::Number(16));
    ctx.add_variable(String::from("res0"), Value::Number(1));
    assert_eq!(ctx.lookup_variable(String::from("zeropad")), Some(Value::Number(16)));
    assert_eq!(ctx.lookup_variable(String::from("res0")), Some(Value::Number(1)));
    assert_eq!(eval_in(&mut ctx, "zeropad/4"), Ok(Value::Number(4)));
}
