use bigcalc::calculator::CalculatorError;
use bigcalc::evaluate::{evaluate, EvalError};
use bigcalc::tokenizer::{TokenizeError, Value};
use compact_str::CompactString;

fn ok(v: i64) -> Result<Value, EvalError> {
    Ok(Value::from(v))
}

fn calc(e: CalculatorError) -> Result<Value, EvalError> {
    Err(EvalError::Calculate(e))
}

#[test]
fn double_minus_cancels() {
    assert_eq!(evaluate("--5"), ok(5));
    assert_eq!(evaluate("---5"), ok(-5));
}

#[test]
fn precedence_and_associativity() {
    assert_eq!(evaluate("2+3*4"), ok(14));
    assert_eq!(evaluate("2*3+4"), ok(10));
    assert_eq!(evaluate("2**3**2"), ok(64));
}

#[test]
fn parentheses_and_implicit_multiplication() {
    assert_eq!(evaluate("2*-(2+2)"), ok(-8));
    assert_eq!(evaluate("2(3)"), ok(6));
    assert_eq!(evaluate("(1+2)(3+4)"), ok(21));
}

#[test]
fn unmatched_parenthesis_is_rejected() {
    assert_eq!(evaluate("(2+2"), calc(CalculatorError::UnmatchedParen));
    assert_eq!(evaluate("2+2)"), calc(CalculatorError::NumberExpected));
    assert_eq!(evaluate("2+2)+"), calc(CalculatorError::NumberExpected));
}

#[test]
fn malformed_numbers_are_rejected() {
    assert_eq!(
        evaluate("0b102"),
        Err(EvalError::Tokenize(TokenizeError::InvalidNumber))
    );
    assert_eq!(
        evaluate("123456789A"),
        Err(EvalError::Tokenize(TokenizeError::InvalidNumber))
    );
    assert_eq!(
        evaluate("2 % 3"),
        Err(EvalError::Tokenize(TokenizeError::UnknownOperation(
            CompactString::new("%")
        )))
    );
}

#[test]
fn grammar_violations_are_rejected() {
    assert_eq!(evaluate("2 2"), calc(CalculatorError::OperationExpected));
    assert_eq!(evaluate("2+"), calc(CalculatorError::NumberExpected));
    assert_eq!(evaluate(""), calc(CalculatorError::NumberExpected));
    assert_eq!(evaluate("   "), calc(CalculatorError::NumberExpected));
}

#[test]
fn the_first_error_wins() {
    // The second number is handed over before the bad operator is read.
    assert_eq!(evaluate("2 2 %"), calc(CalculatorError::OperationExpected));
    assert_eq!(
        evaluate("2 % 2 2"),
        Err(EvalError::Tokenize(TokenizeError::UnknownOperation(
            CompactString::new("%")
        )))
    );
}

#[test]
fn radixes_mix() {
    assert_eq!(evaluate("0x10 + 0b11 + 010 + 10"), ok(37));
}

#[test]
fn arithmetic_errors() {
    assert_eq!(evaluate("1/0"), calc(CalculatorError::DivisionByZero));
    assert_eq!(evaluate("(1/0"), calc(CalculatorError::DivisionByZero));
    assert_eq!(evaluate("2**-1"), calc(CalculatorError::InvalidExponent));
    assert_eq!(evaluate("-7/2"), ok(-3));
}

#[test]
fn values_grow_beyond_machine_words() {
    let value = evaluate("2**64 * 2**64 - 1").unwrap();
    assert_eq!(
        value.to_string(),
        "340282366920938463463374607431768211455"
    );
    let value = evaluate("-(10**30) / 7").unwrap();
    assert_eq!(value.to_string(), "-142857142857142857142857142857");
}

#[test]
fn a_text_has_the_value_of_its_tokens() {
    for text in ["2+3*4", "2*-(2+2)", "(2+2", "2 2", "1/0", "", "2(3)4", "0x10**2"] {
        let tokens = bigcalc::evaluate::tokenize(text).unwrap();
        let expected = bigcalc::evaluate::calculate(tokens).map_err(EvalError::Calculate);
        assert_eq!(evaluate(text), expected);
    }
}

#[test]
fn decimal_numbers_evaluate_to_themselves() {
    for n in [0i64, 7, 10, 1234567890123456789] {
        assert_eq!(evaluate(&n.to_string()), ok(n));
    }
}
