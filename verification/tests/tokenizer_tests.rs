use math_evaluator::tokenizer::{Op, Token, TokenizedInput, Tokenizer, TokenizerError};

#[test]
fn test_tokenizer() {
    let mut tokenizer = Tokenizer::new();
    assert_eq!(
        tokenizer
            .tokenize("((17132123123 + 123123) * ( -1337 ^  - 4  )) / 5!")
            .unwrap(),
        TokenizedInput(vec![
            Token::LParen,
            Token::LParen,
            Token::Number(17132123123),
            Token::BinaryOp(Op::Plus),
            Token::Number(123123),
            Token::RParen,
            Token::BinaryOp(Op::Mult),
            Token::LParen,
            Token::UnaryOp(Op::Minus),
            Token::Number(1337),
            Token::BinaryOp(Op::Pow),
            Token::UnaryOp(Op::Minus),
            Token::Number(4),
            Token::RParen,
            Token::RParen,
            Token::BinaryOp(Op::Div),
            Token::Number(5),
            Token::UnaryOp(Op::Fact),
        ])
    );
}

#[test]
fn test_tokenizer_unexpected_char() {
    // A letter opens a variable name, so `b` is a token of its own, not an
    // error; a character outside the lexical alphabet is the error case.
    let mut tokenizer = Tokenizer::new();
    assert_eq!(
        tokenizer.tokenize("1 + 2 * 3 - 4 / 5 b").unwrap(),
        TokenizedInput(vec![
            Token::Number(1),
            Token::BinaryOp(Op::Plus),
            Token::Number(2),
            Token::BinaryOp(Op::Mult),
            Token::Number(3),
            Token::BinaryOp(Op::Minus),
            Token::Number(4),
            Token::BinaryOp(Op::Div),
            Token::Number(5),
            Token::Variable("b".to_string()),
        ])
    );
    let mut tokenizer = Tokenizer::new();
    assert_eq!(
        tokenizer.tokenize("1 + 2 * 3 - 4 / 5 ?").unwrap_err(),
        TokenizerError::UnexpectedCharacter('?')
    );
}

#[test]
fn test_tokenizer_integer_parse_error() {
    let mut tokenizer = Tokenizer::new();
    assert_eq!(
        tokenizer
            .tokenize("1 + 2 * 3123123123123123123123 - 4 / 5 6")
            .unwrap_err(),
        TokenizerError::IntegerParseError
    );
}

#[test]
fn test_tokenizer_hex_literal() {
    let mut tokenizer = Tokenizer::new();
    assert_eq!(
        tokenizer.tokenize("0x1F + 0xa").unwrap(),
        TokenizedInput(vec![
            Token::Number(31),
            Token::BinaryOp(Op::Plus),
            Token::Number(10),
        ])
    );
    // Only a leading zero opens a hexadecimal literal: any other digit
    // before an `x` ends the number, and the `x` opens an identifier.
    let mut tokenizer = Tokenizer::new();
    assert_eq!(
        tokenizer.tokenize("5x3").unwrap(),
        TokenizedInput(vec![Token::Number(5), Token::Variable("x3".to_string())])
    );
}

#[test]
fn test_tokenizer_variables_collected() {
    let mut tokenizer = Tokenizer::new();
    tokenizer.tokenize("alpha + beta * alpha - _c1").unwrap();
    let vars = tokenizer.get_variables();
    assert_eq!(vars, &vec!["alpha".to_string(), "beta".to_string(), "_c1".to_string()]);
}

#[test]
fn test_tokenizer_plus_context() {
    // `+` is a sign at the start of the input and after operators, and
    // binary after a value — a postfix `!` counts as having produced one,
    // so `7! + 1` keeps its meaning.
    let mut tokenizer = Tokenizer::new();
    assert_eq!(
        tokenizer.tokenize("+1 + +2").unwrap(),
        TokenizedInput(vec![
            Token::UnaryOp(Op::Plus),
            Token::Number(1),
            Token::BinaryOp(Op::Plus),
            Token::UnaryOp(Op::Plus),
            Token::Number(2),
        ])
    );
    let mut tokenizer = Tokenizer::new();
    assert_eq!(
        tokenizer.tokenize("7! + -2").unwrap(),
        TokenizedInput(vec![
            Token::Number(7),
            Token::UnaryOp(Op::Fact),
            Token::BinaryOp(Op::Plus),
            Token::UnaryOp(Op::Minus),
            Token::Number(2),
        ])
    );
}

// The largest literal a signed 64-bit value admits parses; one more fails.
#[test]
fn test_tokenizer_i64_boundary() {
    let mut tokenizer = Tokenizer::new();
    assert_eq!(
        tokenizer.tokenize("9223372036854775807").unwrap(),
        TokenizedInput(vec![Token::Number(9223372036854775807)])
    );
    let mut tokenizer = Tokenizer::new();
    assert_eq!(
        tokenizer.tokenize("9223372036854775808").unwrap_err(),
        TokenizerError::IntegerParseError
    );
}

// Tokenizing, pretty-printing and re-tokenizing yields the same tokens.
#[test]
fn test_untokenize_round_trip() {
    let inputs = [
        "((17132123123 + 123123) * ( -1337 ^  - 4  )) / 5!",
        "1 + 2 * 3",
        "-x1 + +y_2 * 0x1F",
        "3! + 5!",
    ];
    for input in inputs {
        let mut tokenizer = Tokenizer::new();
        let tokens = tokenizer.tokenize(input).unwrap();
        let printed = math_evaluator::tokenizer::untokenize(&tokens);
        let mut tokenizer2 = Tokenizer::new();
        let tokens2 = tokenizer2.tokenize(printed.as_str()).unwrap();
        assert_eq!(tokens, tokens2);
    }
}

#[test]
fn test_untokenize_text() {
    let mut tokenizer = Tokenizer::new();
    let tokens = tokenizer.tokenize("(1+2)*3").unwrap();
    assert_eq!(math_evaluator::tokenizer::untokenize(&tokens), "( 1 + 2 ) * 3");
}
