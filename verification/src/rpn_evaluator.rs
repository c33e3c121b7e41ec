//! A direct evaluator for validated postfix expressions, in wrapping 64-bit
//! arithmetic. It realizes the abstract stack semantics [`sim`] that the
//! generated machine code is designed around.

use vstd::prelude::*;
use vstd::wrapping::i64_specs;

use crate::builtins;
use crate::builtins::spec_factorial;
use crate::builtins::spec_pow;
use crate::rpn_converter::RPNExpr;
use crate::rpn_converter::valid_rpn;
use crate::rpn_converter::verify_balance;
use crate::tokenizer::Op;
use crate::tokenizer::Token;
use crate::tokenizer::TokenView;
use crate::vars::VarEnv;

verus! {

/// An evaluation failure: a variable with no binding.
#[derive(Debug)]
pub enum RpnEvaluatorError {
    UnknownVariable(String),
}

/// Truncated (round-toward-zero) integer division, the semantics of the
/// hardware `idiv` instruction.
pub open spec fn trunc_div(x: int, d: int) -> int {
    if x == 0 {
        0
    } else if x > 0 && d > 0 {
        x / d
    } else if x < 0 && d < 0 {
        ((x * -1) / (d * -1))
    } else if x < 0 {
        ((x * -1) / d) * -1
    } else {
        (x / (d * -1)) * -1
    }
}

/// Wrapping negation.
pub open spec fn wrap_neg(a: i64) -> i64 {
    i64_specs::wrapping_sub(0, a)
}

/// The outcome of running a postfix stream against an abstract operand stack.
pub enum SimOutcome {
    /// The stream was consumed; this is the final stack.
    Stack(Seq<i64>),
    /// A variable had no binding.
    Unknown(Seq<char>),
    /// A division faulted: divisor zero, or the one overflowing quotient.
    DivFault,
    /// The stack went empty where an operand was needed.
    Underflow,
    /// An operator variant with no lowering was met.
    Unsupported,
}

/// One-pass abstract evaluation of a postfix stream: literals and variable
/// values push, a unary operator rewrites the top, a binary operator folds
/// the top two (right operand on top), all in wrapping 64-bit arithmetic.
pub open spec fn sim(toks: Seq<TokenView>, env: Map<Seq<char>, i64>, st: Seq<i64>) -> SimOutcome
    decreases toks.len(),
{
    if toks.len() == 0 {
        SimOutcome::Stack(st)
    } else {
        match toks[0] {
            TokenView::Number(n) => sim(toks.skip(1), env, st.push(n)),
            TokenView::Variable(name) => if env.contains_key(name) {
                sim(toks.skip(1), env, st.push(env[name]))
            } else {
                SimOutcome::Unknown(name)
            },
            TokenView::BinaryOp(op) => if st.len() < 2 {
                SimOutcome::Underflow
            } else {
                let b = st.last();
                let a = st[st.len() - 2];
                let st2 = st.drop_last().drop_last();
                match op {
                    Op::Plus => sim(toks.skip(1), env, st2.push(i64_specs::wrapping_add(a, b))),
                    Op::Minus => sim(toks.skip(1), env, st2.push(i64_specs::wrapping_sub(a, b))),
                    Op::Mult => sim(toks.skip(1), env, st2.push(i64_specs::wrapping_mul(a, b))),
                    Op::Div => if b == 0 || (a == i64::MIN && b == -1) {
                        SimOutcome::DivFault
                    } else {
                        sim(toks.skip(1), env, st2.push(trunc_div(a as int, b as int) as i64))
                    },
                    Op::Pow => sim(toks.skip(1), env, st2.push(spec_pow(a, b as u32))),
                    Op::Fact => SimOutcome::Unsupported,
                }
            },
            TokenView::UnaryOp(op) => if st.len() < 1 {
                SimOutcome::Underflow
            } else {
                let a = st.last();
                let st2 = st.drop_last();
                match op {
                    Op::Plus => sim(toks.skip(1), env, st2.push(a)),
                    Op::Minus => sim(toks.skip(1), env, st2.push(wrap_neg(a))),
                    Op::Fact => sim(toks.skip(1), env, st2.push(spec_factorial(a))),
                    _ => SimOutcome::Unsupported,
                }
            },
            _ => SimOutcome::Unsupported,
        }
    }
}

/// Whether one token has a lowering: `!` only unary, `+ -` either, and
/// `* / ^` only binary.
pub open spec fn token_supported(t: TokenView) -> bool {
    match t {
        TokenView::BinaryOp(Op::Fact) => false,
        TokenView::UnaryOp(Op::Mult) => false,
        TokenView::UnaryOp(Op::Div) => false,
        TokenView::UnaryOp(Op::Pow) => false,
        _ => true,
    }
}

/// Every operator token has a lowering.
pub open spec fn ops_supported(toks: Seq<TokenView>) -> bool {
    forall|i: int| 0 <= i < toks.len() ==> token_supported(#[trigger] toks[i])
}

/// A postfix stream that the balance validator accepts never underflows the
/// abstract stack and, when it runs to completion, leaves exactly the number
/// of values the final balance promises.
pub proof fn lemma_sim_balance(toks: Seq<TokenView>, env: Map<Seq<char>, i64>, st: Seq<i64>, n: int)
    requires
        verify_balance(toks, st.len() as int) == Ok::<int, crate::rpn_converter::RPNConverterError>(
            n,
        ),
        crate::rpn_converter::all_rpn_tokens(toks),
        ops_supported(toks),
    ensures
        !(sim(toks, env, st) is Underflow),
        !(sim(toks, env, st) is Unsupported),
        sim(toks, env, st) matches SimOutcome::Stack(out) ==> out.len() == n,
    decreases toks.len(),
{
    if toks.len() > 0 {
        let t = toks[0];
        assert(crate::rpn_converter::is_rpn_token(t));
        match t {
            TokenView::Number(v) => {
                lemma_sim_balance(toks.skip(1), env, st.push(v), n);
            },
            TokenView::Variable(name) => {
                if env.contains_key(name) {
                    lemma_sim_balance(toks.skip(1), env, st.push(env[name]), n);
                }
            },
            TokenView::BinaryOp(op) => {
                let b = st.last();
                let a = st[st.len() - 2];
                let st2 = st.drop_last().drop_last();
                match op {
                    Op::Plus => lemma_sim_balance(
                        toks.skip(1),
                        env,
                        st2.push(i64_specs::wrapping_add(a, b)),
                        n,
                    ),
                    Op::Minus => lemma_sim_balance(
                        toks.skip(1),
                        env,
                        st2.push(i64_specs::wrapping_sub(a, b)),
                        n,
                    ),
                    Op::Mult => lemma_sim_balance(
                        toks.skip(1),
                        env,
                        st2.push(i64_specs::wrapping_mul(a, b)),
                        n,
                    ),
                    Op::Div => {
                        if !(b == 0 || (a == i64::MIN && b == -1)) {
                            lemma_sim_balance(
                                toks.skip(1),
                                env,
                                st2.push(trunc_div(a as int, b as int) as i64),
                                n,
                            );
                        }
                    },
                    Op::Pow => lemma_sim_balance(toks.skip(1), env, st2.push(spec_pow(a, b as u32)), n),
                    Op::Fact => {
                        assert(false);
                    },
                }
            },
            TokenView::UnaryOp(op) => {
                let a = st.last();
                let st2 = st.drop_last();
                match op {
                    Op::Plus => lemma_sim_balance(toks.skip(1), env, st2.push(a), n),
                    Op::Minus => lemma_sim_balance(toks.skip(1), env, st2.push(wrap_neg(a)), n),
                    Op::Fact => lemma_sim_balance(toks.skip(1), env, st2.push(spec_factorial(a)), n),
                    _ => {
                        assert(false);
                    },
                }
            },
            _ => {
                assert(false);
            },
        }
    }
}

/// A postfix expression accepted by the validator evaluates to exactly one
/// value on the abstract stack, for every variable environment under which it
/// completes.
pub proof fn lemma_valid_rpn_single_value(toks: Seq<TokenView>, env: Map<Seq<char>, i64>)
    requires
        valid_rpn(toks),
        ops_supported(toks),
    ensures
        !(sim(toks, env, Seq::<i64>::empty()) is Underflow),
        !(sim(toks, env, Seq::<i64>::empty()) is Unsupported),
        sim(toks, env, Seq::<i64>::empty()) matches SimOutcome::Stack(out) ==> out.len() == 1,
{
    lemma_sim_balance(toks, env, Seq::<i64>::empty(), 1);
}

/// Outside the one overflowing case, a truncated 64-bit quotient stays in
/// range.
proof fn lemma_trunc_div_range(a: i64, b: i64)
    requires
        b != 0,
        !(a == i64::MIN && b == -1),
    ensures
        i64::MIN <= trunc_div(a as int, b as int) <= i64::MAX,
{
    let x = a as int;
    let d = b as int;
    if x == 0 {
    } else if x > 0 && d > 0 {
        vstd::arithmetic::div_mod::lemma_div_pos_is_pos(x, d);
        vstd::arithmetic::div_mod::lemma_div_nonincreasing(x, d);
    } else if x < 0 && d < 0 {
        vstd::arithmetic::div_mod::lemma_div_pos_is_pos(x * -1, d * -1);
        vstd::arithmetic::div_mod::lemma_div_nonincreasing(x * -1, d * -1);
        if x * -1 > i64::MAX {
            assert(x * -1 == 0x8000_0000_0000_0000);
            assert(d * -1 >= 2);
            vstd::arithmetic::div_mod::lemma_div_is_ordered_by_denominator(x * -1, 2, d * -1);
            assert((x * -1) / 2 == 0x4000_0000_0000_0000);
        }
    } else if x < 0 {
        vstd::arithmetic::div_mod::lemma_div_pos_is_pos(x * -1, d);
        vstd::arithmetic::div_mod::lemma_div_nonincreasing(x * -1, d);
    } else {
        vstd::arithmetic::div_mod::lemma_div_pos_is_pos(x, d * -1);
        vstd::arithmetic::div_mod::lemma_div_nonincreasing(x, d * -1);
    }
}

/// The reference evaluator for validated postfix expressions.
pub struct RpnEvaluator {}

impl RpnEvaluator {
    /// Evaluate a validated postfix expression under a variable environment,
    /// in wrapping 64-bit arithmetic: exactly the abstract stack semantics
    /// [`sim`], which the generated machine code also follows. Division
    /// faults (a zero divisor, or the one overflowing quotient) are out of
    /// scope, as they are for the hardware.
    #[verifier::loop_isolation(false)]
    #[verifier::rlimit(100)]
    pub fn evaluate(tokens: &RPNExpr, variables: &VarEnv) -> (r: Result<i64, RpnEvaluatorError>)
        requires
            valid_rpn(tokens@),
            ops_supported(tokens@),
            !(sim(tokens@, variables@, Seq::<i64>::empty()) is DivFault),
        ensures
            (sim(tokens@, variables@, Seq::<i64>::empty()) matches SimOutcome::Stack(st) ==> r
                matches Ok(v) && st == seq![v]),
            (sim(tokens@, variables@, Seq::<i64>::empty()) matches SimOutcome::Unknown(name) ==> r
                matches Err(RpnEvaluatorError::UnknownVariable(s)) && s@ == name),
    {
        let ghost whole = tokens@;
        let ghost env = variables@;
        let ghost g = sim(whole, env, Seq::<i64>::empty());
        let mut eval_stack: Vec<i64> = Vec::new();
        let mut i: usize = 0;
        proof {
            assert(eval_stack@ =~= Seq::<i64>::empty());
            assert(whole.skip(0) =~= whole);
        }
        while i < tokens.0.len()
            invariant
                i <= whole.len(),
                whole == tokens@,
                g == sim(whole.skip(i as int), env, eval_stack@),
                verify_balance(whole.skip(i as int), eval_stack@.len() as int) == Ok::<
                    int,
                    crate::rpn_converter::RPNConverterError,
                >(1),
                crate::rpn_converter::all_rpn_tokens(whole.skip(i as int)),
                ops_supported(whole.skip(i as int)),
                !(g is DivFault),
            decreases whole.len() - i,
        {
            let ghost rest = whole.skip(i as int);
            proof {
                assert(rest[0] == whole[i as int]);
                assert(rest.skip(1) =~= whole.skip(i + 1));
                assert(forall|k: int|
                    0 <= k < rest.skip(1).len() ==> rest.skip(1)[k] == rest[k + 1]);
            }
            let ghost st0 = eval_stack@;
            match &tokens.0[i] {
                Token::Variable(name) => {
                    match variables.get(name) {
                        Some(value) => {
                            eval_stack.push(value);
                        },
                        None => {
                            return Err(RpnEvaluatorError::UnknownVariable(name.clone()));
                        },
                    }
                },
                Token::Number(num) => {
                    eval_stack.push(*num);
                },
                Token::BinaryOp(op) => {
                    let b = match eval_stack.pop() {
                        Some(v) => v,
                        None => 0,
                    };
                    let a = match eval_stack.pop() {
                        Some(v) => v,
                        None => 0,
                    };
                    proof {
                        assert(eval_stack@ =~= st0.drop_last().drop_last());
                    }
                    let result = match op {
                        Op::Plus => a.wrapping_add(b),
                        Op::Minus => a.wrapping_sub(b),
                        Op::Mult => a.wrapping_mul(b),
                        Op::Div => {
                            match a.checked_div(b) {
                                Some(q) => q,
                                None => {
                                    proof {
                                        assert(rest[0] == TokenView::BinaryOp(Op::Div));
                                        assert(b == st0.last());
                                        assert(st0.drop_last().last() == st0[st0.len() - 2]);
                                        assert(a == st0[st0.len() - 2]);
                                        if b != 0 && !(a == i64::MIN && b == -1) {
                                            lemma_trunc_div_range(a, b);
                                        }
                                        assert(g is DivFault);
                                        assert(false);
                                    }
                                    0
                                },
                            }
                        },
                        Op::Pow => builtins::pow(a, b),
                        Op::Fact => {
                            proof {
                                assert(false);
                            }
                            0
                        },
                    };
                    eval_stack.push(result);
                },
                Token::UnaryOp(op) => {
                    let a = match eval_stack.pop() {
                        Some(v) => v,
                        None => 0,
                    };
                    proof {
                        assert(eval_stack@ =~= st0.drop_last());
                    }
                    let result = match op {
                        Op::Minus => 0i64.wrapping_sub(a),
                        Op::Plus => a,
                        Op::Fact => builtins::factorial(a),
                        _ => {
                            proof {
                                assert(false);
                            }
                            0
                        },
                    };
                    eval_stack.push(result);
                },
                _ => {
                    proof {
                        assert(crate::rpn_converter::is_rpn_token(rest[0]));
                        assert(false);
                    }
                },
            }
            i = i + 1;
        }
        proof {
            assert(whole.skip(whole.len() as int) =~= Seq::<TokenView>::empty());
            assert(g == SimOutcome::Stack(eval_stack@));
            assert(eval_stack@.len() == 1);
            assert(eval_stack@ =~= seq![eval_stack@[0]]);
        }
        Ok(eval_stack[0])
    }
}

} // verus!
