use math_evaluator::compiler::Compiler;
use math_evaluator::executable::{Executable, ExecutableError, EVAL_STACK_SIZE};
use math_evaluator::mmap::Region;
use math_evaluator::rpn_converter::{RPNExpr, RpnConverter};
use math_evaluator::rpn_evaluator::RpnEvaluator;
use math_evaluator::tokenizer::{Op, Token, Tokenizer};
use math_evaluator::vars::VarEnv;

use sha2::Digest;

const POW_ADDR: u64 = 0x7000_0000_1000;
const FACT_ADDR: u64 = 0x7000_0000_2000;

fn compile_source(source: &str, pow_addr: u64, fact_addr: u64) -> math_evaluator::compiler::CompiledCode {
    let mut tokenizer = Tokenizer::new();
    let tokens = tokenizer.tokenize(source).unwrap();
    let rpn = RpnConverter::convert(&tokens).unwrap();
    let mut compiler = Compiler::new();
    compiler.compile(&rpn, pow_addr, fact_addr).unwrap()
}

// Compiling the same source twice yields the same integrity digest.
#[test]
fn test_same_source_same_digest() {
    let a = compile_source("(1 + 2) * x - 4!", POW_ADDR, FACT_ADDR);
    let b = compile_source("(1 + 2) * x - 4!", POW_ADDR, FACT_ADDR);
    assert_eq!(a.integrity, b.integrity);
    assert_eq!(a.code, b.code);
}

// The digest sees none of the helper addresses: compilations against
// differently loaded helpers agree on it even though the code differs.
#[test]
fn test_digest_ignores_helper_addresses() {
    let a = compile_source("2 ^ 3 + 4!", POW_ADDR, FACT_ADDR);
    let b = compile_source("2 ^ 3 + 4!", 0x5555_0000_0000, 0x6666_0000_0000);
    assert_eq!(a.integrity, b.integrity);
    assert_ne!(a.code, b.code);
}

// Without native calls every emitted byte is hashed, so the digest is the
// SHA-256 of the code blob itself.
#[test]
fn test_digest_is_sha256_of_code_without_calls() {
    let cc = compile_source("(1 + 2) * 3 - -4", POW_ADDR, FACT_ADDR);
    let expected = sha2::Sha256::digest(&cc.code).to_vec();
    assert_eq!(cc.integrity, expected);
    assert_eq!(cc.integrity.len(), 32);
}

// Different expressions give different code and digests.
#[test]
fn test_digest_distinguishes_expressions() {
    let a = compile_source("1 + 2", POW_ADDR, FACT_ADDR);
    let b = compile_source("1 - 2", POW_ADDR, FACT_ADDR);
    assert_ne!(a.integrity, b.integrity);
}

#[test]
fn test_integrity_hex() {
    let cc = compile_source("1 + 2", POW_ADDR, FACT_ADDR);
    let mapping = Region::new(0x10_0000, EVAL_STACK_SIZE + cc.code.len());
    let exe = Executable::new(cc.code.len(), cc.integrity.clone(), cc.variables_map, mapping);
    assert_eq!(exe.integrity_hex(), hex::encode(&cc.integrity));
    assert_eq!(exe.integrity_hex().len(), 64);
}

// After successful compilation and materialization the code region reports
// itself executable.
#[test]
fn test_code_region_executable() {
    let cc = compile_source("1 + 2 * 3", POW_ADDR, FACT_ADDR);
    let code_len = cc.code.len();
    let mapping = Region::new(0x10_0000, EVAL_STACK_SIZE + code_len);
    let exe = Executable::new(code_len, cc.integrity, cc.variables_map, mapping);
    assert!(exe.is_executable());
    let code_region = exe.code.as_ref().unwrap();
    assert_eq!(code_region.size(), code_len);
    assert_eq!(code_region.addr(), 0x10_0000 + EVAL_STACK_SIZE);
    let stack_region = exe.eval_stack.as_ref().unwrap();
    assert_eq!(stack_region.addr(), 0x10_0000);
    assert_eq!(stack_region.size(), EVAL_STACK_SIZE);
}

// Destroying an executable releases both of its memory regions.
#[test]
fn test_destroy_releases_regions() {
    let cc = compile_source("1 + 2", POW_ADDR, FACT_ADDR);
    let code_len = cc.code.len();
    let mapping = Region::new(0x10_0000, EVAL_STACK_SIZE + code_len);
    let mut exe = Executable::new(code_len, cc.integrity, cc.variables_map, mapping);
    assert!(exe.code.is_some());
    assert!(exe.eval_stack.is_some());
    exe.destroy();
    assert!(exe.code.is_none());
    assert!(exe.eval_stack.is_none());
    assert!(!exe.is_executable());
    assert!(matches!(
        exe.prepare_run(&VarEnv::new()),
        Err(ExecutableError::CodeNotGenerated)
    ));
}

#[test]
fn test_prepare_run_variables() {
    let cc = compile_source("x * 2 + y", POW_ADDR, FACT_ADDR);
    let code_len = cc.code.len();
    let mapping = Region::new(0x10_0000, EVAL_STACK_SIZE + code_len);
    let exe = Executable::new(code_len, cc.integrity, cc.variables_map, mapping);

    let mut env = VarEnv::new();
    env.insert("x".to_string(), 3);
    env.insert("y".to_string(), 4);
    // Slots are assigned in first-use order: x first, then y.
    assert_eq!(exe.prepare_run(&env).unwrap(), vec![3, 4]);

    let mut env = VarEnv::new();
    env.insert("x".to_string(), 3);
    let err = exe.prepare_run(&env).unwrap_err();
    assert!(matches!(err, ExecutableError::UninitializedVariable(name) if name == "y"));
}

// An operator variant with no lowering is refused.
#[test]
fn test_compile_unknown_op() {
    let rpn = RPNExpr(vec![
        Token::Number(1),
        Token::Number(2),
        Token::BinaryOp(Op::Fact),
    ]);
    let mut compiler = Compiler::new();
    let err = compiler.compile(&rpn, POW_ADDR, FACT_ADDR).unwrap_err();
    assert!(matches!(
        err,
        math_evaluator::compiler::CompilerError::UnknownOp(Op::Fact)
    ));
}

// The generated code for a single literal: prologue, argument loads, the
// push of the immediate, the result pop, epilogue and ret — byte for byte.
#[test]
fn test_generated_code_single_literal() {
    let cc = compile_source("7", POW_ADDR, FACT_ADDR);
    let expected: Vec<u8> = vec![
        0x49, 0x54, // push r12
        0x49, 0x55, // push r13
        0x49, 0x56, // push r14
        0x49, 0x57, // push r15
        0x48, 0x53, // push rbx
        0x48, 0x55, // push rbp
        0x48, 0x57, // push rdi
        0x48, 0x56, // push rsi
        0x49, 0x89, 0xfe, // mov r14, rdi
        0x49, 0x89, 0xf5, // mov r13, rsi
        0x49, 0xbf, 0x07, 0x00, 0x00, 0x00, 0x00, 0x00, 0x00, 0x00, // mov r15, 7
        0x4d, 0x89, 0xbe, 0x00, 0x00, 0x00, 0x00, // mov [r14 + 0], r15
        0x49, 0x81, 0xc6, 0x08, 0x00, 0x00, 0x00, // add r14, 8
        0x49, 0x81, 0xee, 0x08, 0x00, 0x00, 0x00, // sub r14, 8
        0x49, 0x8b, 0x86, 0x00, 0x00, 0x00, 0x00, // mov rax, [r14 + 0]
        0x48, 0x5e, // pop rsi
        0x48, 0x5f, // pop rdi
        0x48, 0x5d, // pop rbp
        0x48, 0x5b, // pop rbx
        0x49, 0x5f, // pop r15
        0x49, 0x5e, // pop r14
        0x49, 0x5d, // pop r13
        0x49, 0x5c, // pop r12
        0xc3, // ret
    ];
    assert_eq!(cc.code, expected);
}

// Expressions that stay within the evaluation-stack region are admitted;
// one slot deeper is flagged as out of scope.
#[test]
fn test_eval_stack_depth_boundary() {
    let slots = EVAL_STACK_SIZE / 8;

    let mut deep = Vec::new();
    for _ in 0..slots {
        deep.push(Token::Number(1));
    }
    for _ in 0..slots - 1 {
        deep.push(Token::BinaryOp(Op::Plus));
    }
    let deep = RPNExpr(deep);
    assert_eq!(math_evaluator::executable::eval_stack_depth(&deep), slots);
    assert!(math_evaluator::executable::fits_eval_stack(&deep));
    assert_eq!(
        RpnEvaluator::evaluate(&deep, &VarEnv::new()).unwrap(),
        slots as i64
    );

    let mut deeper = Vec::new();
    for _ in 0..slots + 1 {
        deeper.push(Token::Number(1));
    }
    for _ in 0..slots {
        deeper.push(Token::BinaryOp(Op::Plus));
    }
    let deeper = RPNExpr(deeper);
    assert_eq!(math_evaluator::executable::eval_stack_depth(&deeper), slots + 1);
    assert!(!math_evaluator::executable::fits_eval_stack(&deeper));
}

#[test]
fn test_eval_stack_depth_simple() {
    let rpn = RPNExpr(vec![
        Token::Number(1),
        Token::Number(2),
        Token::Number(3),
        Token::BinaryOp(Op::Mult),
        Token::BinaryOp(Op::Plus),
    ]);
    assert_eq!(math_evaluator::executable::eval_stack_depth(&rpn), 3);
}
