//! Infix to postfix conversion by the shunting-yard algorithm, followed by a
//! structural validation of the postfix stream.
//!
//! The algorithm is captured by [`sy_convert`] and the validator by
//! [`spec_verify_rpn`]; the executable converter returns exactly what
//! [`spec_convert`] describes.

use vstd::prelude::*;

use crate::tokenizer::Op;
use crate::tokenizer::Token;
use crate::tokenizer::TokenView;
use crate::tokenizer::TokenizedInput;

verus! {

/// A conversion failure: unbalanced parentheses, or a postfix stream that
/// underflows or overflows the abstract operand stack.
#[derive(Debug, Clone, Copy, PartialEq, Eq)]
pub enum RPNConverterError {
    MismatchedClosingParen,
    MismatchedOpeningParen,
    NotEnoughOperands,
    TooManyOperands,
}

/// A validated postfix (reverse Polish notation) token sequence.
#[derive(Debug, PartialEq, Clone)]
pub struct RPNExpr(pub Vec<Token>);

impl View for RPNExpr {
    type V = Seq<TokenView>;

    open spec fn view(&self) -> Seq<TokenView> {
        self.0.deep_view()
    }
}

/// Operator associativity, as used by the shunting-yard pop rule.
#[derive(Debug, Clone, Copy)]
enum Associativity {
    Left,
    Right,
    NA,
}

/// Precedence and associativity of an operator token.
struct PrecAssoc {
    pub prec: i32,
    pub assoc: Associativity,
}

/// Operator precedence: binary `+ -` lowest, then `* /`, unary `+ -`,
/// right-associative `^`, and `!` highest. Everything else (notably an open
/// parenthesis on the stack) ranks lowest of all.
pub open spec fn prec_of(t: TokenView) -> int {
    match t {
        TokenView::BinaryOp(Op::Minus) => 1,
        TokenView::BinaryOp(Op::Plus) => 1,
        TokenView::BinaryOp(Op::Mult) => 2,
        TokenView::BinaryOp(Op::Div) => 2,
        TokenView::BinaryOp(Op::Pow) => 4,
        TokenView::UnaryOp(Op::Minus) => 3,
        TokenView::UnaryOp(Op::Plus) => 3,
        TokenView::UnaryOp(Op::Fact) => 5,
        _ => 0,
    }
}

/// The left-associative operator tokens.
pub open spec fn is_left_assoc(t: TokenView) -> bool {
    match t {
        TokenView::BinaryOp(Op::Minus) => true,
        TokenView::BinaryOp(Op::Plus) => true,
        TokenView::BinaryOp(Op::Mult) => true,
        TokenView::BinaryOp(Op::Div) => true,
        _ => false,
    }
}

/// The right-associative operator tokens.
pub open spec fn is_right_assoc(t: TokenView) -> bool {
    match t {
        TokenView::BinaryOp(Op::Pow) => true,
        _ => false,
    }
}

/// The shunting-yard pop rule: an incoming binary operator pops the stack top
/// when it associates left and does not bind tighter, or associates right and
/// binds strictly less tightly.
pub open spec fn should_pop(incoming: TokenView, top: TokenView) -> bool {
    (is_left_assoc(incoming) && prec_of(incoming) <= prec_of(top)) || (is_right_assoc(incoming)
        && prec_of(incoming) < prec_of(top))
}

/// Pop operators to the output while the pop rule fires.
pub open spec fn pop_ops(incoming: TokenView, out: Seq<TokenView>, st: Seq<TokenView>) -> (
    Seq<TokenView>,
    Seq<TokenView>,
)
    decreases st.len(),
{
    if st.len() > 0 && should_pop(incoming, st.last()) {
        pop_ops(incoming, out.push(st.last()), st.drop_last())
    } else {
        (out, st)
    }
}

/// Pop operators to the output until an open parenthesis is found and
/// discarded; `None` when the stack empties first.
pub open spec fn pop_to_lparen(out: Seq<TokenView>, st: Seq<TokenView>) -> Option<
    (Seq<TokenView>, Seq<TokenView>),
>
    decreases st.len(),
{
    if st.len() == 0 {
        None
    } else if st.last() is LParen {
        Some((out, st.drop_last()))
    } else {
        pop_to_lparen(out.push(st.last()), st.drop_last())
    }
}

/// Drain the operator stack at the end of the input; a leftover open
/// parenthesis is an error.
pub open spec fn drain_stack(out: Seq<TokenView>, st: Seq<TokenView>) -> Result<
    Seq<TokenView>,
    RPNConverterError,
>
    decreases st.len(),
{
    if st.len() == 0 {
        Ok(out)
    } else if st.last() is LParen {
        Err(RPNConverterError::MismatchedOpeningParen)
    } else {
        drain_stack(out.push(st.last()), st.drop_last())
    }
}

/// The shunting-yard conversion itself, from a pending input, an output
/// prefix and an operator stack.
pub open spec fn sy_convert(
    toks: Seq<TokenView>,
    out: Seq<TokenView>,
    st: Seq<TokenView>,
) -> Result<Seq<TokenView>, RPNConverterError>
    decreases toks.len(),
{
    if toks.len() == 0 {
        drain_stack(out, st)
    } else {
        let t = toks[0];
        match t {
            TokenView::Number(_) => sy_convert(toks.skip(1), out.push(t), st),
            TokenView::Variable(_) => sy_convert(toks.skip(1), out.push(t), st),
            TokenView::UnaryOp(_) => sy_convert(toks.skip(1), out, st.push(t)),
            TokenView::BinaryOp(_) => {
                let popped = pop_ops(t, out, st);
                sy_convert(toks.skip(1), popped.0, popped.1.push(t))
            },
            TokenView::LParen => sy_convert(toks.skip(1), out, st.push(t)),
            TokenView::RParen => match pop_to_lparen(out, st) {
                Some(popped) => sy_convert(toks.skip(1), popped.0, popped.1),
                None => Err(RPNConverterError::MismatchedClosingParen),
            },
        }
    }
}

/// The operand-stack effect of one postfix token: literals and variables push
/// one value, a binary operator nets one pop, a unary operator is neutral.
pub open spec fn rpn_delta(t: TokenView) -> int {
    match t {
        TokenView::Number(_) => 1,
        TokenView::Variable(_) => 1,
        TokenView::BinaryOp(_) => -1,
        TokenView::UnaryOp(_) => 0,
        _ => 0,
    }
}

/// Run the balance check over a postfix stream: starting from `n` operands,
/// the running balance must be at least one immediately after every token.
pub open spec fn verify_balance(toks: Seq<TokenView>, n: int) -> Result<int, RPNConverterError>
    decreases toks.len(),
{
    if toks.len() == 0 {
        Ok(n)
    } else {
        let n2 = n + rpn_delta(toks[0]);
        if n2 < 1 {
            Err(RPNConverterError::NotEnoughOperands)
        } else {
            verify_balance(toks.skip(1), n2)
        }
    }
}

/// The structural validator: the balance never drops below one and ends at
/// exactly one. The empty stream fails with `NotEnoughOperands`.
pub open spec fn spec_verify_rpn(toks: Seq<TokenView>) -> Result<(), RPNConverterError> {
    match verify_balance(toks, 0) {
        Ok(n) => if n > 1 {
            Err(RPNConverterError::TooManyOperands)
        } else if n < 1 {
            Err(RPNConverterError::NotEnoughOperands)
        } else {
            Ok(())
        },
        Err(e) => Err(e),
    }
}

/// Conversion followed by validation.
pub open spec fn spec_convert(toks: Seq<TokenView>) -> Result<Seq<TokenView>, RPNConverterError> {
    match sy_convert(toks, Seq::<TokenView>::empty(), Seq::<TokenView>::empty()) {
        Ok(rpn) => match spec_verify_rpn(rpn) {
            Ok(u) => Ok(rpn),
            Err(e) => Err(e),
        },
        Err(e) => Err(e),
    }
}

/// A token allowed in a postfix expression: no parentheses.
pub open spec fn is_rpn_token(t: TokenView) -> bool {
    match t {
        TokenView::Number(_) => true,
        TokenView::Variable(_) => true,
        TokenView::UnaryOp(_) => true,
        TokenView::BinaryOp(_) => true,
        _ => false,
    }
}

/// All tokens are postfix tokens.
pub open spec fn all_rpn_tokens(toks: Seq<TokenView>) -> bool {
    forall|i: int| 0 <= i < toks.len() ==> is_rpn_token(#[trigger] toks[i])
}

/// A validated postfix expression: parenthesis-free and accepted by the
/// balance validator.
pub open spec fn valid_rpn(toks: Seq<TokenView>) -> bool {
    all_rpn_tokens(toks) && spec_verify_rpn(toks) is Ok
}

/// The stack never holds a closing parenthesis.
pub open spec fn stack_tokens_ok(st: Seq<TokenView>) -> bool {
    forall|i: int| 0 <= i < st.len() ==> !(#[trigger] st[i] is RParen)
}

/// The pop rule never fires on an open parenthesis.
proof fn lemma_should_pop_lparen(incoming: TokenView)
    ensures
        !should_pop(incoming, TokenView::LParen),
{
}

/// Popping operators preserves the output and stack shape invariants.
proof fn lemma_pop_ops_shape(incoming: TokenView, out: Seq<TokenView>, st: Seq<TokenView>)
    requires
        all_rpn_tokens(out),
        stack_tokens_ok(st),
    ensures
        all_rpn_tokens(pop_ops(incoming, out, st).0),
        stack_tokens_ok(pop_ops(incoming, out, st).1),
    decreases st.len(),
{
    if st.len() > 0 && should_pop(incoming, st.last()) {
        assert(!(st.last() is LParen)) by {
            lemma_should_pop_lparen(incoming);
        }
        assert(all_rpn_tokens(out.push(st.last()))) by {
            assert(forall|i: int|
                0 <= i < out.len() ==> #[trigger] out.push(st.last())[i] == out[i]);
        }
        assert(stack_tokens_ok(st.drop_last()));
        lemma_pop_ops_shape(incoming, out.push(st.last()), st.drop_last());
    }
}

/// Popping to a parenthesis preserves the output and stack shape invariants.
proof fn lemma_pop_to_lparen_shape(out: Seq<TokenView>, st: Seq<TokenView>)
    requires
        all_rpn_tokens(out),
        stack_tokens_ok(st),
    ensures
        pop_to_lparen(out, st) matches Some(r) ==> all_rpn_tokens(r.0) && stack_tokens_ok(r.1),
    decreases st.len(),
{
    if st.len() == 0 {
    } else if st.last() is LParen {
        assert(stack_tokens_ok(st.drop_last()));
    } else {
        assert(all_rpn_tokens(out.push(st.last()))) by {
            assert(forall|i: int|
                0 <= i < out.len() ==> #[trigger] out.push(st.last())[i] == out[i]);
        }
        assert(stack_tokens_ok(st.drop_last()));
        lemma_pop_to_lparen_shape(out.push(st.last()), st.drop_last());
    }
}

/// Draining the stack yields a parenthesis-free output.
proof fn lemma_drain_shape(out: Seq<TokenView>, st: Seq<TokenView>)
    requires
        all_rpn_tokens(out),
        stack_tokens_ok(st),
    ensures
        drain_stack(out, st) matches Ok(rpn) ==> all_rpn_tokens(rpn),
    decreases st.len(),
{
    if st.len() == 0 {
    } else if st.last() is LParen {
    } else {
        assert(all_rpn_tokens(out.push(st.last()))) by {
            assert(forall|i: int|
                0 <= i < out.len() ==> #[trigger] out.push(st.last())[i] == out[i]);
        }
        assert(stack_tokens_ok(st.drop_last()));
        lemma_drain_shape(out.push(st.last()), st.drop_last());
    }
}

/// The shunting-yard output is parenthesis-free.
proof fn lemma_sy_shape(toks: Seq<TokenView>, out: Seq<TokenView>, st: Seq<TokenView>)
    requires
        all_rpn_tokens(out),
        stack_tokens_ok(st),
    ensures
        sy_convert(toks, out, st) matches Ok(rpn) ==> all_rpn_tokens(rpn),
    decreases toks.len(),
{
    if toks.len() == 0 {
        lemma_drain_shape(out, st);
    } else {
        let t = toks[0];
        match t {
            TokenView::Number(_) => {
                assert(all_rpn_tokens(out.push(t))) by {
                    assert(forall|i: int| 0 <= i < out.len() ==> #[trigger] out.push(t)[i] == out[i]);
                }
                lemma_sy_shape(toks.skip(1), out.push(t), st);
            },
            TokenView::Variable(_) => {
                assert(all_rpn_tokens(out.push(t))) by {
                    assert(forall|i: int| 0 <= i < out.len() ==> #[trigger] out.push(t)[i] == out[i]);
                }
                lemma_sy_shape(toks.skip(1), out.push(t), st);
            },
            TokenView::UnaryOp(_) => {
                assert(stack_tokens_ok(st.push(t))) by {
                    assert(forall|i: int| 0 <= i < st.len() ==> #[trigger] st.push(t)[i] == st[i]);
                }
                lemma_sy_shape(toks.skip(1), out, st.push(t));
            },
            TokenView::BinaryOp(_) => {
                lemma_pop_ops_shape(t, out, st);
                let popped = pop_ops(t, out, st);
                assert(stack_tokens_ok(popped.1.push(t))) by {
                    assert(forall|i: int|
                        0 <= i < popped.1.len() ==> #[trigger] popped.1.push(t)[i] == popped.1[i]);
                }
                lemma_sy_shape(toks.skip(1), popped.0, popped.1.push(t));
            },
            TokenView::LParen => {
                assert(stack_tokens_ok(st.push(t))) by {
                    assert(forall|i: int| 0 <= i < st.len() ==> #[trigger] st.push(t)[i] == st[i]);
                }
                lemma_sy_shape(toks.skip(1), out, st.push(t));
            },
            TokenView::RParen => {
                lemma_pop_to_lparen_shape(out, st);
                match pop_to_lparen(out, st) {
                    Some(popped) => {
                        lemma_sy_shape(toks.skip(1), popped.0, popped.1);
                    },
                    None => {},
                }
            },
        }
    }
}

/// What conversion accepts, it validates: a successful conversion yields a
/// parenthesis-free postfix expression that the balance validator accepts.
pub proof fn lemma_convert_valid(toks: Seq<TokenView>)
    ensures
        spec_convert(toks) matches Ok(rpn) ==> valid_rpn(rpn),
{
    lemma_sy_shape(toks, Seq::<TokenView>::empty(), Seq::<TokenView>::empty());
}

/// The parenthesis depth never dips below zero while reading the stream
/// from depth `d`.
pub open spec fn paren_depth_ok(toks: Seq<TokenView>, d: int) -> bool
    decreases toks.len(),
{
    if toks.len() == 0 {
        true
    } else {
        match toks[0] {
            TokenView::LParen => paren_depth_ok(toks.skip(1), d + 1),
            TokenView::RParen => d > 0 && paren_depth_ok(toks.skip(1), d - 1),
            _ => paren_depth_ok(toks.skip(1), d),
        }
    }
}

/// The parenthesis depth after reading the whole stream from depth `d`.
pub open spec fn paren_depth_end(toks: Seq<TokenView>, d: int) -> int
    decreases toks.len(),
{
    if toks.len() == 0 {
        d
    } else {
        match toks[0] {
            TokenView::LParen => paren_depth_end(toks.skip(1), d + 1),
            TokenView::RParen => paren_depth_end(toks.skip(1), d - 1),
            _ => paren_depth_end(toks.skip(1), d),
        }
    }
}

/// Balanced parentheses: every closing parenthesis has an earlier opening
/// one, and none is left open at the end.
pub open spec fn balanced_parens(toks: Seq<TokenView>) -> bool {
    paren_depth_ok(toks, 0) && paren_depth_end(toks, 0) == 0
}

/// The number of open parentheses held on the operator stack.
pub open spec fn lparen_count(st: Seq<TokenView>) -> int
    decreases st.len(),
{
    if st.len() == 0 {
        0
    } else {
        (if st.last() is LParen {
            1int
        } else {
            0int
        }) + lparen_count(st.drop_last())
    }
}

proof fn lemma_lparen_count_nonneg(st: Seq<TokenView>)
    ensures
        lparen_count(st) >= 0,
    decreases st.len(),
{
    if st.len() > 0 {
        lemma_lparen_count_nonneg(st.drop_last());
    }
}

/// Popping operators never pops an open parenthesis.
proof fn lemma_pop_ops_lparens(incoming: TokenView, out: Seq<TokenView>, st: Seq<TokenView>)
    ensures
        lparen_count(pop_ops(incoming, out, st).1) == lparen_count(st),
    decreases st.len(),
{
    if st.len() > 0 && should_pop(incoming, st.last()) {
        assert(!(st.last() is LParen)) by {
            lemma_should_pop_lparen(incoming);
        }
        lemma_pop_ops_lparens(incoming, out.push(st.last()), st.drop_last());
    }
}

/// Popping to a parenthesis succeeds exactly when the stack holds one, and
/// consumes exactly one.
proof fn lemma_pop_to_lparen_result(out: Seq<TokenView>, st: Seq<TokenView>)
    ensures
        lparen_count(st) == 0 ==> pop_to_lparen(out, st) is None,
        lparen_count(st) > 0 ==> (pop_to_lparen(out, st) matches Some(r) && lparen_count(r.1)
            == lparen_count(st) - 1),
    decreases st.len(),
{
    lemma_lparen_count_nonneg(st);
    if st.len() > 0 {
        lemma_lparen_count_nonneg(st.drop_last());
        if st.last() is LParen {
        } else {
            lemma_pop_to_lparen_result(out.push(st.last()), st.drop_last());
        }
    }
}

/// Draining succeeds exactly when no open parenthesis is left on the stack.
proof fn lemma_drain_result(out: Seq<TokenView>, st: Seq<TokenView>)
    ensures
        lparen_count(st) == 0 ==> drain_stack(out, st) is Ok,
        lparen_count(st) != 0 ==> drain_stack(out, st) == Err::<Seq<TokenView>, RPNConverterError>(
            RPNConverterError::MismatchedOpeningParen,
        ),
    decreases st.len(),
{
    lemma_lparen_count_nonneg(st);
    if st.len() > 0 {
        lemma_lparen_count_nonneg(st.drop_last());
        if st.last() is LParen {
        } else {
            lemma_drain_result(out.push(st.last()), st.drop_last());
        }
    }
}

/// The conversion's parenthesis behavior: with the stack holding `d` open
/// parentheses, the scan succeeds when the remaining stream is balanced from
/// depth `d`, reports a mismatched closing parenthesis when the depth would
/// dip below zero, and a mismatched opening one when depth is left over.
proof fn lemma_sy_parens(toks: Seq<TokenView>, out: Seq<TokenView>, st: Seq<TokenView>)
    ensures
        paren_depth_ok(toks, lparen_count(st)) && paren_depth_end(toks, lparen_count(st)) == 0
            ==> sy_convert(toks, out, st) is Ok,
        !paren_depth_ok(toks, lparen_count(st)) ==> sy_convert(toks, out, st) == Err::<
            Seq<TokenView>,
            RPNConverterError,
        >(RPNConverterError::MismatchedClosingParen),
        paren_depth_ok(toks, lparen_count(st)) && paren_depth_end(toks, lparen_count(st)) != 0
            ==> sy_convert(toks, out, st) == Err::<Seq<TokenView>, RPNConverterError>(
            RPNConverterError::MismatchedOpeningParen,
        ),
    decreases toks.len(),
{
    let d = lparen_count(st);
    lemma_lparen_count_nonneg(st);
    if toks.len() == 0 {
        lemma_drain_result(out, st);
    } else {
        let t = toks[0];
        match t {
            TokenView::Number(_) => {
                lemma_sy_parens(toks.skip(1), out.push(t), st);
            },
            TokenView::Variable(_) => {
                lemma_sy_parens(toks.skip(1), out.push(t), st);
            },
            TokenView::UnaryOp(_) => {
                assert(st.push(t).drop_last() =~= st);
                lemma_sy_parens(toks.skip(1), out, st.push(t));
            },
            TokenView::BinaryOp(_) => {
                lemma_pop_ops_lparens(t, out, st);
                let popped = pop_ops(t, out, st);
                assert(popped.1.push(t).drop_last() =~= popped.1);
                assert(lparen_count(popped.1.push(t)) == d);
                lemma_sy_parens(toks.skip(1), popped.0, popped.1.push(t));
            },
            TokenView::LParen => {
                assert(st.push(t).drop_last() =~= st);
                assert(lparen_count(st.push(t)) == d + 1);
                lemma_sy_parens(toks.skip(1), out, st.push(t));
            },
            TokenView::RParen => {
                lemma_pop_to_lparen_result(out, st);
                if d > 0 {
                    match pop_to_lparen(out, st) {
                        Some(popped) => {
                            lemma_sy_parens(toks.skip(1), popped.0, popped.1);
                        },
                        None => {},
                    }
                }
            },
        }
    }
}

/// Conversion fails on parenthesis structure exactly when the parentheses
/// are unbalanced: a depth that dips below zero is reported as a mismatched
/// closing parenthesis, leftover depth as a mismatched opening one, and with
/// balanced parentheses the only possible failures are the operand-balance
/// checks of the validator.
pub proof fn lemma_convert_parens(toks: Seq<TokenView>)
    ensures
        !paren_depth_ok(toks, 0) ==> spec_convert(toks) == Err::<Seq<TokenView>, RPNConverterError>(
            RPNConverterError::MismatchedClosingParen,
        ),
        paren_depth_ok(toks, 0) && paren_depth_end(toks, 0) != 0 ==> spec_convert(toks) == Err::<
            Seq<TokenView>,
            RPNConverterError,
        >(RPNConverterError::MismatchedOpeningParen),
        balanced_parens(toks) ==> (spec_convert(toks) matches Err(e) ==> e
            == RPNConverterError::NotEnoughOperands || e == RPNConverterError::TooManyOperands),
{
    assert(lparen_count(Seq::<TokenView>::empty()) == 0);
    lemma_sy_parens(toks, Seq::<TokenView>::empty(), Seq::<TokenView>::empty());
    if balanced_parens(toks) {
        match sy_convert(toks, Seq::<TokenView>::empty(), Seq::<TokenView>::empty()) {
            Ok(rpn) => {
                lemma_verify_balance_errors(rpn, 0);
            },
            Err(_) => {},
        }
    }
}

/// The balance check fails only with `NotEnoughOperands`.
proof fn lemma_verify_balance_errors(toks: Seq<TokenView>, n: int)
    ensures
        verify_balance(toks, n) matches Err(e) ==> e == RPNConverterError::NotEnoughOperands,
    decreases toks.len(),
{
    if toks.len() > 0 {
        let n2 = n + rpn_delta(toks[0]);
        if n2 >= 1 {
            lemma_verify_balance_errors(toks.skip(1), n2);
        }
    }
}

/// The grammar of well-formed expressions, read left to right: `expecting`
/// says whether an operand is owed. An operand or an opening parenthesis is
/// read when one is owed; prefix `+` and `-` keep the debt; postfix `!`, a
/// binary operator and a closing parenthesis need an operand in hand; the
/// stream must end with an operand in hand and all parentheses closed.
pub open spec fn wf_from(toks: Seq<TokenView>, expecting: bool, depth: int) -> bool
    decreases toks.len(),
{
    if toks.len() == 0 {
        !expecting && depth == 0
    } else {
        match toks[0] {
            TokenView::Number(_) => expecting && wf_from(toks.skip(1), false, depth),
            TokenView::Variable(_) => expecting && wf_from(toks.skip(1), false, depth),
            TokenView::UnaryOp(Op::Minus) => expecting && wf_from(toks.skip(1), true, depth),
            TokenView::UnaryOp(Op::Plus) => expecting && wf_from(toks.skip(1), true, depth),
            TokenView::UnaryOp(Op::Fact) => !expecting && wf_from(toks.skip(1), false, depth),
            TokenView::BinaryOp(Op::Plus) => !expecting && wf_from(toks.skip(1), true, depth),
            TokenView::BinaryOp(Op::Minus) => !expecting && wf_from(toks.skip(1), true, depth),
            TokenView::BinaryOp(Op::Mult) => !expecting && wf_from(toks.skip(1), true, depth),
            TokenView::BinaryOp(Op::Div) => !expecting && wf_from(toks.skip(1), true, depth),
            TokenView::BinaryOp(Op::Pow) => !expecting && wf_from(toks.skip(1), true, depth),
            TokenView::LParen => expecting && wf_from(toks.skip(1), true, depth + 1),
            TokenView::RParen => !expecting && depth > 0 && wf_from(toks.skip(1), false, depth - 1),
            _ => false,
        }
    }
}

/// A syntactically well-formed expression.
pub open spec fn wf_expr(toks: Seq<TokenView>) -> bool {
    wf_from(toks, true, 0)
}

/// Every stack element is an operator or an open parenthesis.
pub open spec fn stack_ops_ok(st: Seq<TokenView>) -> bool {
    forall|i: int|
        0 <= i < st.len() ==> (match #[trigger] st[i] {
            TokenView::UnaryOp(_) => true,
            TokenView::BinaryOp(_) => true,
            TokenView::LParen => true,
            _ => false,
        })
}

/// The number of binary operators held on the operator stack.
pub open spec fn binop_count(st: Seq<TokenView>) -> int
    decreases st.len(),
{
    if st.len() == 0 {
        0
    } else {
        (if st.last() is BinaryOp {
            1int
        } else {
            0int
        }) + binop_count(st.drop_last())
    }
}

proof fn lemma_binop_count_nonneg(st: Seq<TokenView>)
    ensures
        binop_count(st) >= 0,
    decreases st.len(),
{
    if st.len() > 0 {
        lemma_binop_count_nonneg(st.drop_last());
    }
}

/// Appending one token to a stream that the balance check accepts.
proof fn lemma_verify_snoc(u: Seq<TokenView>, n: int, x: TokenView)
    ensures
        verify_balance(u, n) matches Ok(m) ==> verify_balance(u.push(x), n) == (if m + rpn_delta(x)
            < 1 {
            Err::<int, RPNConverterError>(RPNConverterError::NotEnoughOperands)
        } else {
            Ok::<int, RPNConverterError>(m + rpn_delta(x))
        }),
    decreases u.len(),
{
    if u.len() == 0 {
        assert(u.push(x)[0] == x);
        assert(u.push(x).skip(1) =~= Seq::<TokenView>::empty());
        assert(verify_balance(Seq::<TokenView>::empty(), n + rpn_delta(x)) == Ok::<
            int,
            RPNConverterError,
        >(n + rpn_delta(x)));
        assert(verify_balance(u, n) == Ok::<int, RPNConverterError>(n));
    } else {
        assert(u.push(x)[0] == u[0]);
        assert(u.push(x).skip(1) =~= u.skip(1).push(x));
        let n2 = n + rpn_delta(u[0]);
        if n2 >= 1 {
            lemma_verify_snoc(u.skip(1), n2, x);
        }
    }
}

/// Popping operators to the output preserves the balance invariant: the
/// output balance stays one above the count of binary operators still
/// stacked.
proof fn lemma_pop_ops_invariant(incoming: TokenView, out: Seq<TokenView>, st: Seq<TokenView>)
    requires
        stack_ops_ok(st),
        verify_balance(out, 0) == Ok::<int, RPNConverterError>(binop_count(st) + 1),
    ensures
        ({
            let r = pop_ops(incoming, out, st);
            &&& stack_ops_ok(r.1)
            &&& verify_balance(r.0, 0) == Ok::<int, RPNConverterError>(binop_count(r.1) + 1)
        }),
    decreases st.len(),
{
    if st.len() > 0 && should_pop(incoming, st.last()) {
        assert(!(st.last() is LParen)) by {
            lemma_should_pop_lparen(incoming);
        }
        let x = st.last();
        assert(stack_ops_ok(st.drop_last()));
        lemma_binop_count_nonneg(st.drop_last());
        lemma_verify_snoc(out, 0, x);
        lemma_pop_ops_invariant(incoming, out.push(x), st.drop_last());
    }
}

/// Popping to the matching parenthesis preserves the balance invariant.
proof fn lemma_pop_to_lparen_invariant(out: Seq<TokenView>, st: Seq<TokenView>)
    requires
        stack_ops_ok(st),
        lparen_count(st) > 0,
        verify_balance(out, 0) == Ok::<int, RPNConverterError>(binop_count(st) + 1),
    ensures
        pop_to_lparen(out, st) matches Some(r) && stack_ops_ok(r.1) && verify_balance(r.0, 0)
            == Ok::<int, RPNConverterError>(binop_count(r.1) + 1),
    decreases st.len(),
{
    if st.len() > 0 {
        if st.last() is LParen {
            assert(stack_ops_ok(st.drop_last()));
        } else {
            let x = st.last();
            assert(stack_ops_ok(st.drop_last()));
            lemma_binop_count_nonneg(st.drop_last());
            lemma_verify_snoc(out, 0, x);
            assert(lparen_count(st.drop_last()) == lparen_count(st));
            lemma_pop_to_lparen_invariant(out.push(x), st.drop_last());
        }
    }
}

/// Draining a parenthesis-free stack yields a stream the validator accepts
/// with a final balance of one.
proof fn lemma_drain_invariant(out: Seq<TokenView>, st: Seq<TokenView>)
    requires
        stack_ops_ok(st),
        lparen_count(st) == 0,
        verify_balance(out, 0) == Ok::<int, RPNConverterError>(binop_count(st) + 1),
    ensures
        drain_stack(out, st) matches Ok(rpn) && verify_balance(rpn, 0) == Ok::<
            int,
            RPNConverterError,
        >(1),
    decreases st.len(),
{
    if st.len() > 0 {
        assert(!(st.last() is LParen)) by {
            lemma_lparen_count_nonneg(st.drop_last());
        }
        let x = st.last();
        assert(stack_ops_ok(st.drop_last()));
        lemma_binop_count_nonneg(st.drop_last());
        lemma_verify_snoc(out, 0, x);
        assert(lparen_count(st.drop_last()) == lparen_count(st));
        lemma_drain_invariant(out.push(x), st.drop_last());
    }
}

/// The conversion of a well-formed remainder succeeds and its output passes
/// the validator, given the balance invariant between the output and the
/// stack.
proof fn lemma_sy_wf(toks: Seq<TokenView>, expecting: bool, out: Seq<TokenView>, st: Seq<TokenView>)
    requires
        wf_from(toks, expecting, lparen_count(st)),
        stack_ops_ok(st),
        verify_balance(out, 0) == Ok::<int, RPNConverterError>(
            binop_count(st) + (if expecting {
                0int
            } else {
                1int
            }),
        ),
    ensures
        sy_convert(toks, out, st) matches Ok(rpn) && spec_verify_rpn(rpn) == Ok::<
            (),
            RPNConverterError,
        >(()),
    decreases toks.len(),
{
    lemma_binop_count_nonneg(st);
    lemma_lparen_count_nonneg(st);
    if toks.len() == 0 {
        lemma_drain_invariant(out, st);
    } else {
        let t = toks[0];
        match t {
            TokenView::Number(_) => {
                lemma_verify_snoc(out, 0, t);
                lemma_sy_wf(toks.skip(1), false, out.push(t), st);
            },
            TokenView::Variable(_) => {
                lemma_verify_snoc(out, 0, t);
                lemma_sy_wf(toks.skip(1), false, out.push(t), st);
            },
            TokenView::UnaryOp(op) => {
                assert(st.push(t).drop_last() =~= st);
                assert(stack_ops_ok(st.push(t))) by {
                    assert(forall|i: int| 0 <= i < st.len() ==> #[trigger] st.push(t)[i] == st[i]);
                }
                assert(lparen_count(st.push(t)) == lparen_count(st));
                assert(binop_count(st.push(t)) == binop_count(st));
                match op {
                    Op::Minus => lemma_sy_wf(toks.skip(1), true, out, st.push(t)),
                    Op::Plus => lemma_sy_wf(toks.skip(1), true, out, st.push(t)),
                    Op::Fact => lemma_sy_wf(toks.skip(1), false, out, st.push(t)),
                    _ => {
                        assert(false);
                    },
                }
            },
            TokenView::BinaryOp(_) => {
                lemma_pop_ops_invariant(t, out, st);
                lemma_pop_ops_lparens(t, out, st);
                let popped = pop_ops(t, out, st);
                assert(popped.1.push(t).drop_last() =~= popped.1);
                assert(stack_ops_ok(popped.1.push(t))) by {
                    assert(forall|i: int|
                        0 <= i < popped.1.len() ==> #[trigger] popped.1.push(t)[i] == popped.1[i]);
                }
                assert(lparen_count(popped.1.push(t)) == lparen_count(st));
                assert(binop_count(popped.1.push(t)) == binop_count(popped.1) + 1);
                lemma_sy_wf(toks.skip(1), true, popped.0, popped.1.push(t));
            },
            TokenView::LParen => {
                assert(st.push(t).drop_last() =~= st);
                assert(stack_ops_ok(st.push(t))) by {
                    assert(forall|i: int| 0 <= i < st.len() ==> #[trigger] st.push(t)[i] == st[i]);
                }
                assert(lparen_count(st.push(t)) == lparen_count(st) + 1);
                assert(binop_count(st.push(t)) == binop_count(st));
                lemma_sy_wf(toks.skip(1), true, out, st.push(t));
            },
            TokenView::RParen => {
                lemma_pop_to_lparen_invariant(out, st);
                lemma_pop_to_lparen_result(out, st);
                match pop_to_lparen(out, st) {
                    Some(popped) => {
                        lemma_sy_wf(toks.skip(1), false, popped.0, popped.1);
                    },
                    None => {
                        assert(false);
                    },
                }
            },
        }
    }
}

/// Every syntactically well-formed expression is accepted: the conversion
/// succeeds and the validator passes its output.
pub proof fn lemma_wf_expr_accepted(toks: Seq<TokenView>)
    requires
        wf_expr(toks),
    ensures
        spec_convert(toks) is Ok,
{
    assert(lparen_count(Seq::<TokenView>::empty()) == 0);
    assert(binop_count(Seq::<TokenView>::empty()) == 0);
    lemma_sy_wf(toks, true, Seq::<TokenView>::empty(), Seq::<TokenView>::empty());
}

/// Converts infix notation to reverse Polish notation by the shunting-yard
/// algorithm.
pub struct RpnConverter;

impl RpnConverter {
    /// The precedence and associativity of an operator token.
    fn get_prec_assoc(op: &Token) -> (r: PrecAssoc)
        ensures
            r.prec as int == prec_of(op@),
            (r.assoc is Left) == is_left_assoc(op@),
            (r.assoc is Right) == is_right_assoc(op@),
    {
        match *op {
            Token::BinaryOp(Op::Minus) | Token::BinaryOp(Op::Plus) => PrecAssoc {
                prec: 1,
                assoc: Associativity::Left,
            },
            Token::BinaryOp(Op::Mult) | Token::BinaryOp(Op::Div) => PrecAssoc {
                prec: 2,
                assoc: Associativity::Left,
            },
            Token::BinaryOp(Op::Pow) => PrecAssoc { prec: 4, assoc: Associativity::Right },
            Token::UnaryOp(Op::Minus) | Token::UnaryOp(Op::Plus) => PrecAssoc {
                prec: 3,
                assoc: Associativity::NA,
            },
            Token::UnaryOp(Op::Fact) => PrecAssoc { prec: 5, assoc: Associativity::NA },
            _ => PrecAssoc { prec: 0, assoc: Associativity::NA },
        }
    }

    /// Verify that the postfix expression is structurally valid: the operand
    /// balance stays at one or above throughout and ends at exactly one.
    #[verifier::loop_isolation(false)]
    fn verify_rpn(tokens: &Vec<Token>) -> (r: Result<(), RPNConverterError>)
        requires
            all_rpn_tokens(tokens.deep_view()),
        ensures
            r == spec_verify_rpn(tokens.deep_view()),
    {
        let ghost ts = tokens.deep_view();
        let mut n_operands: usize = 0;
        let mut i: usize = 0;
        proof {
            assert(ts.skip(0) =~= ts);
        }
        while i < tokens.len()
            invariant
                i <= ts.len(),
                n_operands <= i,
                verify_balance(ts, 0) == verify_balance(ts.skip(i as int), n_operands as int),
                i > 0 ==> n_operands >= 1,
            decreases ts.len() - i,
        {
            proof {
                assert(ts.skip(i as int)[0] == ts[i as int]);
                assert(ts.skip(i as int).skip(1) =~= ts.skip(i + 1));
            }
            match &tokens[i] {
                Token::Number(_) | Token::Variable(_) => {
                    n_operands = n_operands + 1;
                },
                Token::BinaryOp(_) => {
                    if n_operands < 2 {
                        return Err(RPNConverterError::NotEnoughOperands);
                    }
                    n_operands = n_operands - 1;
                },
                Token::UnaryOp(_) => {
                    if n_operands < 1 {
                        return Err(RPNConverterError::NotEnoughOperands);
                    }
                },
                _ => {
                    proof {
                        assert(is_rpn_token(ts[i as int]));
                        assert(false);
                    }
                },
            }
            i = i + 1;
        }
        proof {
            assert(ts.skip(ts.len() as int) =~= Seq::<TokenView>::empty());
        }
        if n_operands > 1 {
            return Err(RPNConverterError::TooManyOperands);
        }
        if n_operands < 1 {
            return Err(RPNConverterError::NotEnoughOperands);
        }
        Ok(())
    }

    /// Convert an infix token stream to reverse Polish notation using the
    /// shunting-yard algorithm, then validate the result.
    #[verifier::loop_isolation(false)]
    #[verifier::rlimit(100)]
    pub fn convert(tokens: &TokenizedInput) -> (r: Result<RPNExpr, RPNConverterError>)
        ensures
            (spec_convert(tokens@) matches Ok(rpn) ==> r matches Ok(re) && re@ == rpn),
            (spec_convert(tokens@) matches Err(e) ==> r matches Err(e2) && e2 == e),
    {
        let ghost whole = tokens@;
        let ghost g = sy_convert(whole, Seq::<TokenView>::empty(), Seq::<TokenView>::empty());
        let mut output: Vec<Token> = Vec::new();
        let mut stack: Vec<Token> = Vec::new();
        let mut i: usize = 0;
        proof {
            assert(output.deep_view() =~= Seq::<TokenView>::empty());
            assert(stack.deep_view() =~= Seq::<TokenView>::empty());
            assert(whole.skip(0) =~= whole);
        }
        while i < tokens.0.len()
            invariant
                i <= whole.len(),
                whole == tokens@,
                g == sy_convert(whole.skip(i as int), output.deep_view(), stack.deep_view()),
                all_rpn_tokens(output.deep_view()),
                stack_tokens_ok(stack.deep_view()),
            decreases whole.len() - i,
        {
            let ghost out0 = output.deep_view();
            let ghost st0 = stack.deep_view();
            proof {
                assert(whole.skip(i as int)[0] == whole[i as int]);
                assert(whole.skip(i as int).skip(1) =~= whole.skip(i + 1));
            }
            let token = tokens.0[i].clone();
            let ghost tv = token@;
            match token {
                Token::Number(_) | Token::Variable(_) => {
                    output.push(token);
                    proof {
                        assert(output.deep_view() =~= out0.push(tv));
                    }
                },
                Token::UnaryOp(_) => {
                    stack.push(token);
                    proof {
                        assert(stack.deep_view() =~= st0.push(tv));
                    }
                },
                Token::BinaryOp(_) => {
                    let pa1 = Self::get_prec_assoc(&token);
                    let mut done: bool = false;
                    while !done
                        invariant
                            pop_ops(tv, out0, st0) == pop_ops(
                                tv,
                                output.deep_view(),
                                stack.deep_view(),
                            ),
                            all_rpn_tokens(output.deep_view()),
                            stack_tokens_ok(stack.deep_view()),
                            done ==> (stack.deep_view().len() == 0 || !should_pop(
                                tv,
                                stack.deep_view().last(),
                            )),
                            pa1.prec as int == prec_of(tv),
                            (pa1.assoc is Left) == is_left_assoc(tv),
                            (pa1.assoc is Right) == is_right_assoc(tv),
                        decreases stack@.len() + (if done {
                            0int
                        } else {
                            1int
                        }),
                    {
                        if stack.len() == 0 {
                            done = true;
                        } else {
                            let pa2 = Self::get_prec_assoc(&stack[stack.len() - 1]);
                            let pop_it = (matches!(pa1.assoc, Associativity::Left) && pa1.prec
                                <= pa2.prec) || (matches!(pa1.assoc, Associativity::Right)
                                && pa1.prec < pa2.prec);
                            proof {
                                assert(stack.deep_view().last() == stack@[stack@.len() - 1]@);
                                assert(pop_it == should_pop(tv, stack.deep_view().last()));
                            }
                            if pop_it {
                                let ghost stc = stack.deep_view();
                                let ghost outc = output.deep_view();
                                match stack.pop() {
                                    Some(top) => {
                                        output.push(top);
                                    },
                                    None => {},
                                }
                                proof {
                                    assert(stack.deep_view() =~= stc.drop_last());
                                    assert(output.deep_view() =~= outc.push(stc.last()));
                                }
                            } else {
                                done = true;
                            }
                        }
                    }
                    proof {
                        assert(pop_ops(tv, output.deep_view(), stack.deep_view()) == (
                        output.deep_view(),
                        stack.deep_view(),
                        ));
                    }
                    let ghost st1 = stack.deep_view();
                    stack.push(token);
                    proof {
                        assert(stack.deep_view() =~= st1.push(tv));
                    }
                },
                Token::LParen => {
                    stack.push(token);
                    proof {
                        assert(stack.deep_view() =~= st0.push(tv));
                    }
                },
                Token::RParen => {
                    let mut found: bool = false;
                    let mut emptied: bool = false;
                    while !found && !emptied
                        invariant
                            !found && !emptied ==> pop_to_lparen(out0, st0) == pop_to_lparen(
                                output.deep_view(),
                                stack.deep_view(),
                            ),
                            all_rpn_tokens(output.deep_view()),
                            stack_tokens_ok(stack.deep_view()),
                            found ==> pop_to_lparen(out0, st0) == Some(
                                (output.deep_view(), stack.deep_view()),
                            ),
                            emptied ==> pop_to_lparen(out0, st0) is None,
                            !(found && emptied),
                        decreases stack@.len() + (if found || emptied {
                            0int
                        } else {
                            1int
                        }),
                    {
                        let ghost stc = stack.deep_view();
                        let ghost outc = output.deep_view();
                        match stack.pop() {
                            Some(tok) => {
                                proof {
                                    assert(stc.last() == tok@);
                                    assert(stack.deep_view() =~= stc.drop_last());
                                }
                                match tok {
                                    Token::LParen => {
                                        found = true;
                                    },
                                    _ => {
                                        output.push(tok);
                                        proof {
                                            assert(output.deep_view() =~= outc.push(stc.last()));
                                        }
                                    },
                                }
                            },
                            None => {
                                emptied = true;
                            },
                        }
                    }
                    if !found {
                        proof {
                            assert(pop_to_lparen(out0, st0) is None);
                            assert(g == Err::<Seq<TokenView>, RPNConverterError>(
                                RPNConverterError::MismatchedClosingParen,
                            ));
                        }
                        return Err(RPNConverterError::MismatchedClosingParen);
                    }
                },
            }
            i = i + 1;
        }
        proof {
            assert(whole.skip(whole.len() as int) =~= Seq::<TokenView>::empty());
        }
        let mut drained: bool = false;
        while !drained
            invariant
                g == drain_stack(output.deep_view(), stack.deep_view()),
                all_rpn_tokens(output.deep_view()),
                stack_tokens_ok(stack.deep_view()),
                drained ==> stack.deep_view().len() == 0,
            decreases stack@.len() + (if drained {
                0int
            } else {
                1int
            }),
        {
            let ghost stc = stack.deep_view();
            let ghost outc = output.deep_view();
            match stack.pop() {
                Some(tok) => {
                    proof {
                        assert(stc.last() == tok@);
                        assert(stack.deep_view() =~= stc.drop_last());
                    }
                    match tok {
                        Token::LParen => {
                            proof {
                                assert(g == Err::<Seq<TokenView>, RPNConverterError>(
                                    RPNConverterError::MismatchedOpeningParen,
                                ));
                            }
                            return Err(RPNConverterError::MismatchedOpeningParen);
                        },
                        _ => {
                            output.push(tok);
                            proof {
                                assert(output.deep_view() =~= outc.push(stc.last()));
                            }
                        },
                    }
                },
                None => {
                    drained = true;
                },
            }
        }
        proof {
            assert(g == Ok::<Seq<TokenView>, RPNConverterError>(output.deep_view()));
        }
        match Self::verify_rpn(&output) {
            Ok(_) => Ok(RPNExpr(output)),
            Err(e) => Err(e),
        }
    }
}

} // verus!
