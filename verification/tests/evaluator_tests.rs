use math_evaluator::rpn_converter::{RPNConverterError, RPNExpr, RpnConverter};
use math_evaluator::rpn_evaluator::RpnEvaluator;
use math_evaluator::tokenizer::Op::{Div, Fact, Minus, Mult, Plus, Pow};
use math_evaluator::tokenizer::Token::{BinaryOp, Number, UnaryOp};
use math_evaluator::tokenizer::{Op, Token, TokenizedInput, Tokenizer};
use math_evaluator::vars::VarEnv;

#[test]
fn test_rpn_evaluator() {
    let tokens = RPNExpr(vec![Number(1), Number(2), BinaryOp(Plus)]);
    assert_eq!(RpnEvaluator::evaluate(&tokens, &VarEnv::new()).unwrap(), 3);

    let tokens = RPNExpr(vec![Number(1), Number(2), BinaryOp(Minus)]);
    assert_eq!(RpnEvaluator::evaluate(&tokens, &VarEnv::new()).unwrap(), -1);

    let tokens = RPNExpr(vec![Number(2), Number(3), BinaryOp(Mult)]);
    assert_eq!(RpnEvaluator::evaluate(&tokens, &VarEnv::new()).unwrap(), 6);

    let tokens = RPNExpr(vec![Number(6), Number(3), BinaryOp(Div)]);
    assert_eq!(RpnEvaluator::evaluate(&tokens, &VarEnv::new()).unwrap(), 2);

    let tokens = RPNExpr(vec![Number(1), Number(2), UnaryOp(Minus), BinaryOp(Plus)]);
    assert_eq!(RpnEvaluator::evaluate(&tokens, &VarEnv::new()).unwrap(), -1);

    let tokens = RPNExpr(vec![Number(1), Number(2), UnaryOp(Minus), BinaryOp(Minus)]);
    assert_eq!(RpnEvaluator::evaluate(&tokens, &VarEnv::new()).unwrap(), 3);

    let tokens = RPNExpr(vec![Number(1), Number(2), UnaryOp(Minus), BinaryOp(Mult)]);
    assert_eq!(RpnEvaluator::evaluate(&tokens, &VarEnv::new()).unwrap(), -2);

    let tokens = RPNExpr(vec![Number(1), Number(2), UnaryOp(Minus), BinaryOp(Div)]);
    assert_eq!(RpnEvaluator::evaluate(&tokens, &VarEnv::new()).unwrap(), 0);

    let tokens = RPNExpr(vec![Number(5), UnaryOp(Fact)]);
    assert_eq!(RpnEvaluator::evaluate(&tokens, &VarEnv::new()).unwrap(), 120);

    let tokens = RPNExpr(vec![Number(5), Number(2), BinaryOp(Pow)]);
    assert_eq!(RpnEvaluator::evaluate(&tokens, &VarEnv::new()).unwrap(), 25);
}

#[test]
fn test_convert_to_rpn_and_eval() {
    let input = "((123 * 6 + 123123) * ( -1337 --- -4 )) * 5 / 120";
    let mut tokenizer = Tokenizer::new();
    let tokens = tokenizer.tokenize(input).unwrap();
    let rpn = RpnConverter::convert(&tokens).unwrap();
    assert_eq!(RpnEvaluator::evaluate(&rpn, &VarEnv::new()).unwrap(), -6879446);

    let input = "1 + 1 + 15 * 3 - 1 - -2";
    let mut tokenizer = Tokenizer::new();
    let tokens = tokenizer.tokenize(input).unwrap();
    let rpn = RpnConverter::convert(&tokens).unwrap();
    assert_eq!(RpnEvaluator::evaluate(&rpn, &VarEnv::new()).unwrap(), 48);

    let input = "(-19 + (7! + -1 * (9724 + 82402)) * (3 - 812 - (13 - 7)!)) / 4";
    let mut tokenizer = Tokenizer::new();
    let tokens = tokenizer.tokenize(input).unwrap();
    let rpn = RpnConverter::convert(&tokens).unwrap();
    assert_eq!(RpnEvaluator::evaluate(&rpn, &VarEnv::new()).unwrap(), 33288618);

    let input = "((-2 ^ 3) ^ 4) * (3 ^ 2) - 1";
    let mut tokenizer = Tokenizer::new();
    let tokens = tokenizer.tokenize(input).unwrap();
    let rpn = RpnConverter::convert(&tokens).unwrap();
    assert_eq!(RpnEvaluator::evaluate(&rpn, &VarEnv::new()).unwrap(), 36863);
}

#[test]
fn test_rpn_converter() {
    let tokens = TokenizedInput(vec![
        Token::Number(1),
        Token::BinaryOp(Op::Plus),
        Token::Number(2),
        Token::BinaryOp(Op::Mult),
        Token::Number(3),
    ]);

    assert_eq!(
        RpnConverter::convert(&tokens).unwrap(),
        RPNExpr(vec![
            Token::Number(1),
            Token::Number(2),
            Token::Number(3),
            Token::BinaryOp(Op::Mult),
            Token::BinaryOp(Op::Plus),
        ])
    );
}

#[test]
fn test_rpn_converter_parentheses() {
    let tokens = TokenizedInput(vec![
        Token::LParen,
        Token::Number(1),
        Token::BinaryOp(Op::Plus),
        Token::Number(2),
        Token::RParen,
        Token::BinaryOp(Op::Mult),
        Token::Number(3),
    ]);

    assert_eq!(
        RpnConverter::convert(&tokens).unwrap(),
        RPNExpr(vec![
            Token::Number(1),
            Token::Number(2),
            Token::BinaryOp(Op::Plus),
            Token::Number(3),
            Token::BinaryOp(Op::Mult),
        ])
    );
}

#[test]
fn test_rpn_converter_unary() {
    let tokens = TokenizedInput(vec![
        Token::UnaryOp(Op::Minus),
        Token::Number(1),
        Token::BinaryOp(Op::Plus),
        Token::Number(2),
        Token::BinaryOp(Op::Mult),
        Token::Number(3),
    ]);

    assert_eq!(
        RpnConverter::convert(&tokens).unwrap(),
        RPNExpr(vec![
            Token::Number(1),
            Token::UnaryOp(Op::Minus),
            Token::Number(2),
            Token::Number(3),
            Token::BinaryOp(Op::Mult),
            Token::BinaryOp(Op::Plus),
        ])
    );
}

#[test]
fn test_rpn_converter_pow_right_assoc() {
    let tokens = TokenizedInput(vec![
        Token::Number(2),
        Token::BinaryOp(Op::Pow),
        Token::Number(3),
        Token::BinaryOp(Op::Pow),
        Token::Number(4),
    ]);

    assert_eq!(
        RpnConverter::convert(&tokens).unwrap(),
        RPNExpr(vec![
            Token::Number(2),
            Token::Number(3),
            Token::Number(4),
            Token::BinaryOp(Op::Pow),
            Token::BinaryOp(Op::Pow),
        ])
    );
}

// The empty input is refused by the validator.
#[test]
fn test_convert_empty_input() {
    let mut tokenizer = Tokenizer::new();
    let tokens = tokenizer.tokenize("").unwrap();
    assert_eq!(
        RpnConverter::convert(&tokens).unwrap_err(),
        RPNConverterError::NotEnoughOperands
    );
}

#[test]
fn test_convert_mismatched_closing_paren() {
    let mut tokenizer = Tokenizer::new();
    let tokens = tokenizer.tokenize("1 + 2)").unwrap();
    assert_eq!(
        RpnConverter::convert(&tokens).unwrap_err(),
        RPNConverterError::MismatchedClosingParen
    );
}

#[test]
fn test_convert_mismatched_opening_paren() {
    let mut tokenizer = Tokenizer::new();
    let tokens = tokenizer.tokenize("(1 + 2").unwrap();
    assert_eq!(
        RpnConverter::convert(&tokens).unwrap_err(),
        RPNConverterError::MismatchedOpeningParen
    );
}

#[test]
fn test_convert_too_many_operands() {
    let mut tokenizer = Tokenizer::new();
    let tokens = tokenizer.tokenize("1 2").unwrap();
    assert_eq!(
        RpnConverter::convert(&tokens).unwrap_err(),
        RPNConverterError::TooManyOperands
    );
}

#[test]
fn test_convert_not_enough_operands() {
    let mut tokenizer = Tokenizer::new();
    let tokens = tokenizer.tokenize("1 +").unwrap();
    assert_eq!(
        RpnConverter::convert(&tokens).unwrap_err(),
        RPNConverterError::NotEnoughOperands
    );
}

fn eval(input: &str) -> i64 {
    let mut tokenizer = Tokenizer::new();
    let tokens = tokenizer.tokenize(input).unwrap();
    let rpn = RpnConverter::convert(&tokens).unwrap();
    RpnEvaluator::evaluate(&rpn, &VarEnv::new()).unwrap()
}

// The end-to-end scenarios of the design, through the reference evaluator.
#[test]
fn test_reference_scenarios() {
    assert_eq!(eval("1 + 2 * 3"), 7);
    assert_eq!(eval("(1 + 2) * 3"), 9);
    assert_eq!(eval("-1 + 2 * 3"), 5);
    assert_eq!(eval("+1"), 1);
    assert_eq!(eval("+1 + +2"), 3);
    assert_eq!(eval("3! + 5!"), 126);
    assert_eq!(eval("2 ^ 3 ^ 2"), 512);
    assert_eq!(eval("((123 * 6 + 123123) * (-1337 - -4)) * 5 / 120"), -6879446);
    assert_eq!(eval("1 + 1 + 15 * 3 - 1 - -2"), 48);
    assert_eq!(eval("((-2 ^ 3) ^ 4) * (3 ^ 2) - 1"), 36863);
}

#[test]
fn test_evaluate_with_variables() {
    let mut tokenizer = Tokenizer::new();
    let tokens = tokenizer.tokenize("x * 2 + y").unwrap();
    let rpn = RpnConverter::convert(&tokens).unwrap();

    let mut env = VarEnv::new();
    env.insert("x".to_string(), 3);
    env.insert("y".to_string(), 4);
    assert_eq!(RpnEvaluator::evaluate(&rpn, &env).unwrap(), 10);

    let mut env = VarEnv::new();
    env.insert("x".to_string(), 3);
    let err = RpnEvaluator::evaluate(&rpn, &env).unwrap_err();
    assert!(matches!(
        err,
        math_evaluator::rpn_evaluator::RpnEvaluatorError::UnknownVariable(name) if name == "y"
    ));
}

#[test]
fn test_var_env_last_binding_wins() {
    let mut env = VarEnv::new();
    env.insert("x".to_string(), 1);
    env.insert("x".to_string(), 7);
    assert_eq!(env.get(&"x".to_string()), Some(7));
    assert_eq!(env.get(&"missing".to_string()), None);
}

#[test]
fn test_builtins_wrap() {
    assert_eq!(math_evaluator::builtins::pow(2, 10), 1024);
    assert_eq!(math_evaluator::builtins::pow(2, 64), 0);
    assert_eq!(math_evaluator::builtins::pow(7, 0), 1);
    // The exponent is reduced to its low 32 bits.
    assert_eq!(math_evaluator::builtins::pow(2, 1 << 32), 1);
    assert_eq!(math_evaluator::builtins::factorial(5), 120);
    assert_eq!(math_evaluator::builtins::factorial(0), 1);
    assert_eq!(math_evaluator::builtins::factorial(-3), 1);
    // 21! overflows and wraps.
    assert_eq!(
        math_evaluator::builtins::factorial(21),
        (1..=21i64).fold(1i64, |a, b| a.wrapping_mul(b))
    );
}
