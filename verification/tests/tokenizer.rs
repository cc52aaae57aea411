use bigcalc::evaluate::tokenize;
use bigcalc::tokenizer::{finalize_operator, Operator, Token, TokenizeError, Tokenizer, Value};
use compact_str::CompactString;

#[test]
fn test_spaces() {
    let result = tokenize(" -  2  +  (  4  )  *    10");
    assert_eq!(
        result,
        Ok(vec![
            Token::Op(Operator::Sub),
            Token::from(2),
            Token::Op(Operator::Add),
            Token::ParenOpen,
            Token::from(4),
            Token::ParenClose,
            Token::Op(Operator::Mul),
            Token::from(10),
        ])
    );
}

#[test]
fn test_sub_negative() {
    let result = tokenize("-12--34");
    assert_eq!(
        result,
        Ok(vec![
            Token::Op(Operator::Sub),
            Token::from(12),
            Token::Op(Operator::Sub),
            Token::Op(Operator::Sub),
            Token::from(34)
        ])
    );
}

#[test]
fn test_parentheses() {
    let result = tokenize("(-2)");
    assert_eq!(
        result,
        Ok(vec![
            Token::ParenOpen,
            Token::Op(Operator::Sub),
            Token::from(2),
            Token::ParenClose
        ])
    );
}

#[test]
fn test_non_decimal() {
    let result = tokenize("0");
    assert_eq!(result, Ok(vec![Token::from(0),]));

    let result = tokenize("123456789");
    assert_eq!(result, Ok(vec![Token::from(123456789),]));

    let result = tokenize("123456789A");
    assert_eq!(result, Err(TokenizeError::InvalidNumber));

    let result = tokenize("0x123456789abcdef");
    assert_eq!(result, Ok(vec![Token::from(0x123456789abcdef),]));

    let result = tokenize("0x123456789abcdefg");
    assert_eq!(result, Err(TokenizeError::InvalidNumber));

    let result = tokenize("0b10");
    assert_eq!(result, Ok(vec![Token::from(0b10),]));

    let result = tokenize("0b102");
    assert_eq!(result, Err(TokenizeError::InvalidNumber));

    let result = tokenize("01234567");
    assert_eq!(result, Ok(vec![Token::from(0o1234567),]));

    let result = tokenize("012345678");
    assert_eq!(result, Err(TokenizeError::InvalidNumber));
}

#[test]
fn radix_prefixes_give_the_value() {
    assert_eq!(tokenize("0x1F"), Ok(vec![Token::from(31)]));
    assert_eq!(tokenize("0b101"), Ok(vec![Token::from(5)]));
    assert_eq!(tokenize("017"), Ok(vec![Token::from(15)]));
    assert_eq!(tokenize("0X1f"), Err(TokenizeError::InvalidNumber));
    assert_eq!(tokenize("0xAbC"), Ok(vec![Token::from(0xabc)]));
}

#[test]
fn a_prefix_needs_a_zero_value_in_octal() {
    // After more zeros the number still reads zero in radix 8.
    assert_eq!(tokenize("00x10"), Ok(vec![Token::from(16)]));
    assert_eq!(tokenize("00b11"), Ok(vec![Token::from(3)]));
    // A second prefix letter is a digit of the new radix, or none.
    assert_eq!(tokenize("0xb"), Ok(vec![Token::from(11)]));
    assert_eq!(tokenize("0xx"), Err(TokenizeError::InvalidNumber));
    assert_eq!(tokenize("0bb"), Err(TokenizeError::InvalidNumber));
    // Once the value is not zero, or the radix is ten, the letter is a digit.
    assert_eq!(tokenize("01x"), Err(TokenizeError::InvalidNumber));
    assert_eq!(tokenize("10x"), Err(TokenizeError::InvalidNumber));
    // A bare prefix reads zero.
    assert_eq!(tokenize("0x"), Ok(vec![Token::from(0)]));
    assert_eq!(tokenize("0b"), Ok(vec![Token::from(0)]));
}

#[test]
fn decimal_numbers_round_trip() {
    for n in [0i64, 1, 9, 10, 99, 100, 1234567890, i64::MAX] {
        let text = n.to_string();
        assert_eq!(tokenize(&text), Ok(vec![Token::from(n)]));
    }
}

#[test]
fn numbers_grow_beyond_machine_words() {
    let text = "340282366920938463463374607431768211456";
    let expected = Value::from(1u8) << 128u32;
    assert_eq!(format!("{}", expected), text);
    assert_eq!(tokenize(text), Ok(vec![Token::Val(expected)]));
}

#[test]
fn whitespace_does_not_change_the_tokens() {
    let plain = tokenize("2+2");
    assert_eq!(plain, tokenize("2 + 2"));
    assert_eq!(plain, tokenize("\t2\n+\r2\x0b\x0c "));
    assert_eq!(
        plain,
        Ok(vec![Token::from(2), Token::Op(Operator::Add), Token::from(2)])
    );
}

#[test]
fn whitespace_separates_numbers() {
    assert_eq!(tokenize("2 2"), Ok(vec![Token::from(2), Token::from(2)]));
    assert_eq!(tokenize("22"), Ok(vec![Token::from(22)]));
}

#[test]
fn every_operator_is_read() {
    assert_eq!(
        tokenize("1+2-3*4/5**6"),
        Ok(vec![
            Token::from(1),
            Token::Op(Operator::Add),
            Token::from(2),
            Token::Op(Operator::Sub),
            Token::from(3),
            Token::Op(Operator::Mul),
            Token::from(4),
            Token::Op(Operator::Div),
            Token::from(5),
            Token::Op(Operator::Pow),
            Token::from(6),
        ])
    );
}

#[test]
fn a_sign_or_parenthesis_ends_an_operator() {
    assert_eq!(
        tokenize("2*-(3)"),
        Ok(vec![
            Token::from(2),
            Token::Op(Operator::Mul),
            Token::Op(Operator::Sub),
            Token::ParenOpen,
            Token::from(3),
            Token::ParenClose,
        ])
    );
    assert_eq!(
        tokenize("2**+3"),
        Ok(vec![
            Token::from(2),
            Token::Op(Operator::Pow),
            Token::Op(Operator::Add),
            Token::from(3),
        ])
    );
}

#[test]
fn unknown_operators_are_rejected_with_their_text() {
    assert_eq!(
        tokenize("%"),
        Err(TokenizeError::UnknownOperation(CompactString::new("%")))
    );
    assert_eq!(
        tokenize("2 % 3"),
        Err(TokenizeError::UnknownOperation(CompactString::new("%")))
    );
    assert_eq!(
        tokenize("2***3"),
        Err(TokenizeError::UnknownOperation(CompactString::new("***")))
    );
    assert_eq!(
        tokenize("2*/3"),
        Err(TokenizeError::UnknownOperation(CompactString::new("*/")))
    );
    assert_eq!(
        tokenize("a"),
        Err(TokenizeError::UnknownOperation(CompactString::new("a")))
    );
    assert_eq!(
        tokenize("2 \u{a0}3"),
        Err(TokenizeError::UnknownOperation(CompactString::new("\u{a0}")))
    );
}

#[test]
fn the_operator_table() {
    assert_eq!(finalize_operator("+"), Some(Token::Op(Operator::Add)));
    assert_eq!(finalize_operator("-"), Some(Token::Op(Operator::Sub)));
    assert_eq!(finalize_operator("/"), Some(Token::Op(Operator::Div)));
    assert_eq!(finalize_operator("*"), Some(Token::Op(Operator::Mul)));
    assert_eq!(finalize_operator("**"), Some(Token::Op(Operator::Pow)));
    assert_eq!(finalize_operator("("), Some(Token::ParenOpen));
    assert_eq!(finalize_operator(")"), Some(Token::ParenClose));
    assert_eq!(finalize_operator(""), None);
    assert_eq!(finalize_operator("*+"), None);
    assert_eq!(finalize_operator("***"), None);
    assert_eq!(finalize_operator("%"), None);
}

#[test]
fn update_holds_a_sign_back_by_one_character() {
    let mut tokenizer = Tokenizer::default();
    assert_eq!(tokenizer.update('-'), Ok(None));
    assert_eq!(tokenizer.update('('), Ok(Some(Token::Op(Operator::Sub))));
    assert_eq!(tokenizer.update('7'), Ok(Some(Token::ParenOpen)));
    assert_eq!(tokenizer.update('1'), Ok(None));
    assert_eq!(tokenizer.update(')'), Ok(Some(Token::from(71))));
    assert_eq!(tokenizer.finalize(), Ok(Some(Token::ParenClose)));
    assert_eq!(tokenizer.finalize(), Ok(None));
}

#[test]
fn an_error_leaves_the_tokenizer_idle() {
    let mut tokenizer = Tokenizer::default();
    assert_eq!(tokenizer.update('1'), Ok(None));
    assert_eq!(tokenizer.update('a'), Err(TokenizeError::InvalidNumber));
    assert_eq!(tokenizer.finalize(), Ok(None));

    assert_eq!(tokenizer.update('%'), Ok(None));
    assert_eq!(tokenizer.update('%'), Ok(None));
    assert_eq!(
        tokenizer.update('5'),
        Err(TokenizeError::UnknownOperation(CompactString::new("%%")))
    );
    assert_eq!(tokenizer.finalize(), Ok(None));

    assert_eq!(tokenizer.update('&'), Ok(None));
    assert_eq!(
        tokenizer.finalize(),
        Err(TokenizeError::UnknownOperation(CompactString::new("&")))
    );
    assert_eq!(tokenizer.update('3'), Ok(None));
    assert_eq!(tokenizer.finalize(), Ok(Some(Token::from(3))));
}

#[test]
fn a_token_from_a_negative_integer() {
    assert_eq!(Token::from(-5), Token::Val(Value::from(-5)));
    assert_ne!(Token::from(-5), Token::from(5));
}

#[test]
fn whitespace_joins_the_tokens_of_two_texts() {
    for (first, second) in [("12", "34"), ("2*", "*3"), ("-", "("), ("0x1f", "0b1"), ("", "7")] {
        let mut expected = tokenize(first).unwrap();
        expected.extend(tokenize(second).unwrap());
        for space in [' ', '\t', '\n', '\x0b', '\x0c', '\r'] {
            let text = format!("{}{}{}", first, space, second);
            assert_eq!(tokenize(&text), Ok(expected.clone()));
        }
    }
    assert_eq!(tokenize(" 7 "), tokenize("7"));
    assert_eq!(tokenize("% 7"), tokenize("%"));
    assert_eq!(tokenize("7 %"), tokenize("%"));
}

#[test]
fn prefixed_numbers_round_trip() {
    for n in [0u64, 1, 7, 8, 15, 16, 255, 4096, u64::MAX] {
        assert_eq!(tokenize(&format!("0x{:x}", n)), Ok(vec![Token::Val(Value::from(n))]));
        assert_eq!(tokenize(&format!("0b{:b}", n)), Ok(vec![Token::Val(Value::from(n))]));
        assert_eq!(tokenize(&format!("0{:o}", n)), Ok(vec![Token::Val(Value::from(n))]));
    }
}
