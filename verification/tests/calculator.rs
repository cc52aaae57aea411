use bigcalc::calculator::{Calculator, CalculatorError};
use bigcalc::evaluate::calculate;
use bigcalc::tokenizer::{Operator, Token, Value};

const ADD: Token = Token::Op(Operator::Add);
const SUB: Token = Token::Op(Operator::Sub);
const MUL: Token = Token::Op(Operator::Mul);
const DIV: Token = Token::Op(Operator::Div);
const POW: Token = Token::Op(Operator::Pow);
const OP: Token = Token::ParenOpen;
const CL: Token = Token::ParenClose;

fn num(v: i64) -> Token {
    Token::from(v)
}

fn ok(v: i64) -> Result<Value, CalculatorError> {
    Ok(Value::from(v))
}

#[test]
fn test_negative_braces() {
    // 2 * -(2 + 2)
    let res = calculate(vec![2.into(), MUL, SUB, OP, 2.into(), ADD, 2.into(), CL]);
    assert_eq!(res, Ok(Value::from(-8)));
}

#[test]
fn each_operator_computes() {
    assert_eq!(calculate(vec![num(7), ADD, num(5)]), ok(12));
    assert_eq!(calculate(vec![num(7), SUB, num(5)]), ok(2));
    assert_eq!(calculate(vec![num(7), MUL, num(5)]), ok(35));
    assert_eq!(calculate(vec![num(7), DIV, num(5)]), ok(1));
    assert_eq!(calculate(vec![num(7), POW, num(5)]), ok(16807));
}

#[test]
fn division_rounds_toward_zero() {
    assert_eq!(calculate(vec![num(23), DIV, num(10)]), ok(2));
    assert_eq!(calculate(vec![num(23), DIV, SUB, num(10)]), ok(-2));
    assert_eq!(calculate(vec![SUB, num(23), DIV, num(10)]), ok(-2));
    assert_eq!(calculate(vec![SUB, num(23), DIV, SUB, num(10)]), ok(2));
    assert_eq!(calculate(vec![num(0), DIV, num(3)]), ok(0));
}

#[test]
fn division_by_zero_is_an_error() {
    assert_eq!(
        calculate(vec![num(1), DIV, num(0)]),
        Err(CalculatorError::DivisionByZero)
    );
    assert_eq!(
        calculate(vec![num(0), DIV, num(0)]),
        Err(CalculatorError::DivisionByZero)
    );
    // The division waits on the stack and fails when the sum folds it.
    assert_eq!(
        calculate(vec![num(1), DIV, num(0), ADD, num(1)]),
        Err(CalculatorError::DivisionByZero)
    );
}

#[test]
fn powers_take_exponents_of_32_bits() {
    assert_eq!(calculate(vec![num(2), POW, num(0)]), ok(1));
    assert_eq!(calculate(vec![num(0), POW, num(0)]), ok(1));
    assert_eq!(calculate(vec![num(0), POW, num(5)]), ok(0));
    assert_eq!(calculate(vec![SUB, num(2), POW, num(3)]), ok(-8));
    assert_eq!(calculate(vec![SUB, num(2), POW, num(4)]), ok(16));
    assert_eq!(calculate(vec![num(1), POW, num(4294967295)]), ok(1));
    assert_eq!(
        calculate(vec![num(2), POW, SUB, num(1)]),
        Err(CalculatorError::InvalidExponent)
    );
    assert_eq!(
        calculate(vec![num(1), POW, num(4294967296)]),
        Err(CalculatorError::InvalidExponent)
    );
    let big = calculate(vec![num(2), POW, num(200)]);
    assert_eq!(big, Ok(Value::from(1u8) << 200u32));
}

#[test]
fn precedence_and_left_to_right() {
    assert_eq!(calculate(vec![num(2), ADD, num(3), MUL, num(4)]), ok(14));
    assert_eq!(calculate(vec![num(2), MUL, num(3), ADD, num(4)]), ok(10));
    assert_eq!(calculate(vec![num(2), POW, num(3), POW, num(2)]), ok(64));
    assert_eq!(calculate(vec![num(10), SUB, num(3), SUB, num(2)]), ok(5));
    assert_eq!(calculate(vec![num(100), DIV, num(10), DIV, num(5)]), ok(2));
    assert_eq!(
        calculate(vec![num(1), ADD, num(2), MUL, num(3), POW, num(2), SUB, num(4)]),
        ok(15)
    );
}

#[test]
fn unary_signs() {
    assert_eq!(calculate(vec![SUB, SUB, num(5)]), ok(5));
    assert_eq!(calculate(vec![SUB, SUB, SUB, num(5)]), ok(-5));
    assert_eq!(calculate(vec![ADD, num(5)]), ok(5));
    assert_eq!(calculate(vec![SUB, ADD, num(5)]), ok(-5));
    assert_eq!(calculate(vec![num(3), SUB, SUB, num(5)]), ok(8));
    assert_eq!(calculate(vec![num(3), MUL, SUB, num(5)]), ok(-15));
}

#[test]
fn groups_and_implicit_multiplication() {
    assert_eq!(calculate(vec![num(2), OP, num(3), CL]), ok(6));
    assert_eq!(
        calculate(vec![OP, num(2), ADD, num(3), CL, MUL, num(4)]),
        ok(20)
    );
    assert_eq!(
        calculate(vec![OP, num(1), ADD, num(1), CL, OP, num(2), ADD, num(3), CL]),
        ok(10)
    );
    assert_eq!(
        calculate(vec![SUB, OP, SUB, OP, num(4), CL, CL]),
        ok(4)
    );
    // The implicit product is not folded into what waits below it: the
    // power takes the whole product as its exponent.
    assert_eq!(
        calculate(vec![num(2), POW, num(3), OP, num(4), CL]),
        ok(4096)
    );
}

#[test]
fn grammar_errors() {
    assert_eq!(
        calculate(vec![num(2), num(2)]),
        Err(CalculatorError::OperationExpected)
    );
    assert_eq!(
        calculate(vec![num(2), ADD]),
        Err(CalculatorError::NumberExpected)
    );
    assert_eq!(calculate(vec![]), Err(CalculatorError::NumberExpected));
    assert_eq!(calculate(vec![SUB]), Err(CalculatorError::NumberExpected));
    assert_eq!(
        calculate(vec![MUL, num(2)]),
        Err(CalculatorError::NumberExpected)
    );
    assert_eq!(
        calculate(vec![num(2), ADD, MUL, num(2)]),
        Err(CalculatorError::NumberExpected)
    );
    assert_eq!(
        calculate(vec![OP, CL]),
        Err(CalculatorError::NumberExpected)
    );
}

#[test]
fn unmatched_parentheses() {
    assert_eq!(
        calculate(vec![OP, num(2), ADD, num(2)]),
        Err(CalculatorError::UnmatchedParen)
    );
    assert_eq!(
        calculate(vec![OP, OP, num(2), CL]),
        Err(CalculatorError::UnmatchedParen)
    );
    assert_eq!(calculate(vec![OP]), Err(CalculatorError::NumberExpected));

    let mut calculator = Calculator::default();
    assert_eq!(calculator.handle_token(num(2)), Ok(()));
    assert_eq!(calculator.handle_token(ADD), Ok(()));
    assert_eq!(calculator.handle_token(num(2)), Ok(()));
    assert_eq!(
        calculator.handle_token(CL),
        Err(CalculatorError::NumberExpected)
    );
}

#[test]
fn an_error_leaves_the_calculator_as_it_was() {
    let mut calculator = Calculator::default();
    assert_eq!(calculator.handle_token(num(2)), Ok(()));
    assert_eq!(calculator.handle_token(ADD), Ok(()));
    assert_eq!(calculator.handle_token(num(3)), Ok(()));
    assert_eq!(
        calculator.handle_token(num(4)),
        Err(CalculatorError::OperationExpected)
    );
    assert_eq!(
        calculator.handle_token(CL),
        Err(CalculatorError::NumberExpected)
    );
    assert_eq!(calculator.handle_token(DIV), Ok(()));
    assert_eq!(calculator.handle_token(num(0)), Ok(()));
    assert_eq!(
        calculator.handle_token(ADD),
        Err(CalculatorError::DivisionByZero)
    );
    assert_eq!(
        calculator.handle_token(CL),
        Err(CalculatorError::DivisionByZero)
    );
    // Still 2 + 3 / 0: a different divisor cannot be given any more.
    assert_eq!(calculator.finalize(), Err(CalculatorError::DivisionByZero));
}

#[test]
fn finalize_makes_the_calculator_new() {
    let mut calculator = Calculator::default();
    assert_eq!(calculator.handle_token(OP), Ok(()));
    assert_eq!(calculator.handle_token(num(2)), Ok(()));
    assert_eq!(calculator.finalize(), Err(CalculatorError::UnmatchedParen));
    assert_eq!(calculator.finalize(), Err(CalculatorError::NumberExpected));
    assert_eq!(calculator.handle_token(num(7)), Ok(()));
    assert_eq!(calculator.finalize(), Ok(Value::from(7)));
    assert_eq!(calculator.handle_token(SUB), Ok(()));
    assert_eq!(calculator.finalize(), Err(CalculatorError::NumberExpected));
    assert_eq!(calculator.handle_token(num(7)), Ok(()));
    assert_eq!(calculator.finalize(), Ok(Value::from(7)));
}

fn plain(op: &Token, l: i64, r: i64) -> i64 {
    match op {
        Token::Op(Operator::Add) => l + r,
        Token::Op(Operator::Sub) => l - r,
        Token::Op(Operator::Mul) => l * r,
        Token::Op(Operator::Div) => l / r,
        Token::Op(Operator::Pow) => l.pow(r as u32),
        _ => unreachable!(),
    }
}

fn binds(op: &Token) -> u8 {
    match op {
        Token::Op(Operator::Add) | Token::Op(Operator::Sub) => 10,
        Token::Op(Operator::Mul) | Token::Op(Operator::Div) => 20,
        Token::Op(Operator::Pow) => 30,
        _ => unreachable!(),
    }
}

#[test]
fn every_pair_of_operators() {
    let (l, m, r) = (7, 3, 2);
    for first in [ADD, SUB, MUL, DIV, POW] {
        for second in [ADD, SUB, MUL, DIV, POW] {
            let expected = if binds(&first) >= binds(&second) {
                plain(&second, plain(&first, l, m), r)
            } else {
                plain(&first, l, plain(&second, m, r))
            };
            let tokens = vec![num(l), first.clone(), num(m), second.clone(), num(r)];
            assert_eq!(calculate(tokens), ok(expected));
        }
    }
}

#[test]
fn a_group_stands_for_its_value() {
    let inner = vec![num(2), ADD, num(3), MUL, num(4)];
    let value = 14;
    let group = |before: Vec<Token>, after: Vec<Token>| {
        let mut tokens = before;
        tokens.push(OP);
        tokens.extend(inner.clone());
        tokens.push(CL);
        tokens.extend(after);
        calculate(tokens)
    };
    assert_eq!(group(vec![], vec![]), ok(value));
    assert_eq!(group(vec![SUB], vec![]), ok(-value));
    assert_eq!(group(vec![num(5)], vec![]), ok(5 * value));
    assert_eq!(group(vec![num(5), MUL], vec![]), ok(5 * value));
    assert_eq!(group(vec![num(100), SUB], vec![POW, num(2)]), ok(100 - value * value));
    assert_eq!(group(vec![OP], vec![CL]), ok(value));
}

#[test]
fn only_balanced_parentheses_have_a_value() {
    assert!(calculate(vec![OP, OP, num(1), CL, CL]).is_ok());
    assert!(calculate(vec![OP, OP, num(1), CL]).is_err());
    assert!(calculate(vec![OP, num(1), CL, CL]).is_err());
    assert!(calculate(vec![num(1), CL, OP]).is_err());
}
