//! The stack-based code generator: lowers a validated postfix expression to
//! x86-64 machine code, assigns variable slots in first-use order, and
//! accumulates a SHA-256 integrity digest over the logic-bearing bytes.
//!
//! Register roles in the generated function: R14 points at the next free
//! evaluation-stack slot, R13 at the variables area, R8 and R9 receive
//! popped operands (right first), and R15 is the scratch register for memory
//! addressing and 64-bit immediates. The two pointer arguments arrive in RDI
//! and RSI per the System V AMD64 calling convention.
//!
//! The digest deliberately skips the 8-byte absolute helper address of each
//! native-call sequence: [`full_hash`] takes no address at all, so the digest
//! identifies the generated logic independently of where the helpers were
//! loaded.

use vstd::prelude::*;

use sha2::Digest;

use crate::rpn_converter::RPNExpr;
use crate::rpn_converter::valid_rpn;
use crate::rpn_evaluator::ops_supported;
use crate::tokenizer::Op;
use crate::tokenizer::Token;
use crate::tokenizer::TokenView;
use crate::tokenizer::insert_var;
use crate::tokenizer::record_vars;
use crate::tokenizer::lemma_record_vars_snoc;
use crate::vars::VarCatalog;
use crate::vars::slot_for;
use crate::x86::Operand;
use crate::x86::Reg64;
use crate::x86::X86Asm;
use crate::x86::enc_add;
use crate::x86::enc_call;
use crate::x86::enc_cqo;
use crate::x86::enc_idiv;
use crate::x86::enc_imul;
use crate::x86::enc_mov;
use crate::x86::enc_neg;
use crate::x86::enc_pop;
use crate::x86::enc_push;
use crate::x86::enc_ret;
use crate::x86::enc_sub;

verus! {

/// A lowering failure: an operator variant with no code sequence.
#[derive(Debug)]
pub enum CompilerError {
    UnsupportedOp(Op),
    UnknownOp(Op),
}

/// The operator an operator token carries.
pub open spec fn op_of(t: TokenView) -> Op {
    match t {
        TokenView::UnaryOp(op) => op,
        TokenView::BinaryOp(op) => op,
        _ => Op::Plus,
    }
}

/// The first operator in the stream that has no lowering.
pub open spec fn first_unknown_op(toks: Seq<TokenView>) -> Op
    decreases toks.len(),
{
    if toks.len() == 0 {
        Op::Plus
    } else if !crate::rpn_evaluator::token_supported(toks[0]) {
        op_of(toks[0])
    } else {
        first_unknown_op(toks.skip(1))
    }
}

/// A scan that finds the first unloweable operator at `k` matches
/// `first_unknown_op`.
proof fn lemma_first_unknown_at(toks: Seq<TokenView>, k: int)
    requires
        0 <= k < toks.len(),
        forall|m: int| 0 <= m < k ==> crate::rpn_evaluator::token_supported(#[trigger] toks[m]),
        !crate::rpn_evaluator::token_supported(toks[k]),
    ensures
        first_unknown_op(toks) == op_of(toks[k]),
    decreases k,
{
    if k > 0 {
        assert(toks.skip(1)[k - 1] == toks[k]);
        assert(forall|m: int| 0 <= m < k - 1 ==> #[trigger] toks.skip(1)[m] == toks[m + 1]);
        lemma_first_unknown_at(toks.skip(1), k - 1);
    }
}

/// The digest of a byte sequence under SHA-256.
pub uninterp spec fn sha256_of(data: Seq<u8>) -> Seq<u8>;

/// Relies on sha2's `Sha256`: the digest is a function of the input bytes
/// alone, and is 32 bytes long.
#[verifier::external_body]
fn sha256(data: &Vec<u8>) -> (r: Vec<u8>)
    ensures
        r@ == sha256_of(data@),
        r@.len() == 32,
{
    let mut hasher = sha2::Sha256::new();
    hasher.update(data.as_slice());
    hasher.finalize().to_vec()
}

/// Bytes that push an operand onto the evaluation stack: a 64-bit immediate
/// is staged through R15, then the value is stored at [R14] and R14 advances
/// by eight.
pub open spec fn enc_push_es(op: Operand) -> Seq<u8> {
    (match op {
        Operand::Imm64(_) => enc_mov(Operand::Reg(Reg64::R15), op) + enc_mov(
            Operand::MemDisp(Reg64::R14, 0),
            Operand::Reg(Reg64::R15),
        ),
        _ => enc_mov(Operand::MemDisp(Reg64::R14, 0), op),
    }) + enc_add(Operand::Reg(Reg64::R14), Operand::Imm64(8))
}

/// Bytes that pop the top of the evaluation stack into a register.
pub open spec fn enc_pop_es(r: Reg64) -> Seq<u8> {
    enc_sub(Operand::Reg(Reg64::R14), Operand::Imm64(8)) + enc_mov(
        Operand::Reg(r),
        Operand::MemDisp(Reg64::R14, 0),
    )
}

/// The prologue: save every callee-saved register the generated code uses,
/// and the two argument registers.
pub open spec fn enc_prologue() -> Seq<u8> {
    enc_push(Operand::Reg(Reg64::R12)) + enc_push(Operand::Reg(Reg64::R13)) + enc_push(
        Operand::Reg(Reg64::R14),
    ) + enc_push(Operand::Reg(Reg64::R15)) + enc_push(Operand::Reg(Reg64::Rbx)) + enc_push(
        Operand::Reg(Reg64::Rbp),
    ) + enc_push(Operand::Reg(Reg64::Rdi)) + enc_push(Operand::Reg(Reg64::Rsi))
}

/// The epilogue: restore in reverse order.
pub open spec fn enc_epilogue() -> Seq<u8> {
    enc_pop(Operand::Reg(Reg64::Rsi)) + enc_pop(Operand::Reg(Reg64::Rdi)) + enc_pop(
        Operand::Reg(Reg64::Rbp),
    ) + enc_pop(Operand::Reg(Reg64::Rbx)) + enc_pop(Operand::Reg(Reg64::R15)) + enc_pop(
        Operand::Reg(Reg64::R14),
    ) + enc_pop(Operand::Reg(Reg64::R13)) + enc_pop(Operand::Reg(Reg64::R12))
}

/// Load the two ABI arguments into their roles: R14 takes the eval-stack
/// base from RDI, R13 the variables base from RSI.
pub open spec fn enc_load_args() -> Seq<u8> {
    enc_mov(Operand::Reg(Reg64::R14), Operand::Reg(Reg64::Rdi)) + enc_mov(
        Operand::Reg(Reg64::R13),
        Operand::Reg(Reg64::Rsi),
    )
}

/// The integer argument registers of the System V AMD64 calling convention,
/// in order.
pub open spec fn spec_calling_conv(i: int) -> Reg64 {
    if i == 0 {
        Reg64::Rdi
    } else if i == 1 {
        Reg64::Rsi
    } else if i == 2 {
        Reg64::Rdx
    } else if i == 3 {
        Reg64::Rcx
    } else if i == 4 {
        Reg64::R8
    } else {
        Reg64::R9
    }
}

/// Bytes that move call arguments into the convention's registers, from
/// position `i` on.
pub open spec fn enc_native_movs(args: Seq<Operand>, i: int) -> Seq<u8>
    decreases args.len() - i,
{
    if i < 0 || i >= args.len() {
        seq![]
    } else {
        enc_mov(Operand::Reg(spec_calling_conv(i)), args[i]) + enc_native_movs(args, i + 1)
    }
}

/// The full byte sequence of a native call: argument moves, the helper's
/// absolute address staged into RAX, the indirect call, and the push of the
/// returned value.
pub open spec fn enc_native_call_code(func: u64, args: Seq<Operand>) -> Seq<u8> {
    enc_native_movs(args, 0) + enc_mov(Operand::Reg(Reg64::Rax), Operand::Imm64(func as i64))
        + enc_call(Operand::Reg(Reg64::Rax)) + enc_push_es(Operand::Reg(Reg64::Rax))
}

/// The digest-visible part of a native call: the same bytes minus the
/// absolute address immediate, so the digest does not depend on where the
/// helper was loaded.
pub open spec fn enc_native_call_hash(args: Seq<Operand>) -> Seq<u8> {
    enc_native_movs(args, 0) + enc_call(Operand::Reg(Reg64::Rax)) + enc_push_es(
        Operand::Reg(Reg64::Rax),
    )
}

/// The code of one postfix token, given the slot its variable reads and the
/// two helper addresses.
pub open spec fn token_code(t: TokenView, slot: int, pow_addr: u64, fact_addr: u64) -> Seq<u8> {
    match t {
        TokenView::Variable(_) => enc_mov(Operand::Reg(Reg64::R15), Operand::Reg(Reg64::R13))
            + enc_add(Operand::Reg(Reg64::R15), Operand::Imm64((8 * slot) as i64)) + enc_mov(
            Operand::Reg(Reg64::R15),
            Operand::MemDisp(Reg64::R15, 0),
        ) + enc_push_es(Operand::Reg(Reg64::R15)),
        TokenView::Number(n) => enc_push_es(Operand::Imm64(n)),
        TokenView::BinaryOp(op) => enc_pop_es(Reg64::R8) + enc_pop_es(Reg64::R9) + (match op {
            Op::Plus => enc_add(Operand::Reg(Reg64::R8), Operand::Reg(Reg64::R9)) + enc_push_es(
                Operand::Reg(Reg64::R8),
            ),
            Op::Minus => enc_sub(Operand::Reg(Reg64::R9), Operand::Reg(Reg64::R8)) + enc_push_es(
                Operand::Reg(Reg64::R9),
            ),
            Op::Mult => enc_mov(Operand::Reg(Reg64::Rax), Operand::Reg(Reg64::R8)) + enc_imul(
                Operand::Reg(Reg64::R9),
            ) + enc_push_es(Operand::Reg(Reg64::Rax)),
            Op::Div => enc_mov(Operand::Reg(Reg64::Rax), Operand::Reg(Reg64::R9)) + enc_cqo()
                + enc_idiv(Operand::Reg(Reg64::R8)) + enc_push_es(Operand::Reg(Reg64::Rax)),
            Op::Pow => enc_native_call_code(
                pow_addr,
                seq![Operand::Reg(Reg64::R9), Operand::Reg(Reg64::R8)],
            ),
            Op::Fact => seq![],
        }),
        TokenView::UnaryOp(op) => enc_pop_es(Reg64::R8) + (match op {
            Op::Plus => enc_push_es(Operand::Reg(Reg64::R8)),
            Op::Minus => enc_neg(Operand::Reg(Reg64::R8)) + enc_push_es(Operand::Reg(Reg64::R8)),
            Op::Fact => enc_native_call_code(fact_addr, seq![Operand::Reg(Reg64::R8)]),
            _ => seq![],
        }),
        _ => seq![],
    }
}

/// The digest-visible bytes of one postfix token: identical to its code,
/// except that native calls omit the helper address immediate.
pub open spec fn token_hash(t: TokenView, slot: int) -> Seq<u8> {
    match t {
        TokenView::Variable(_) => enc_mov(Operand::Reg(Reg64::R15), Operand::Reg(Reg64::R13))
            + enc_add(Operand::Reg(Reg64::R15), Operand::Imm64((8 * slot) as i64)) + enc_mov(
            Operand::Reg(Reg64::R15),
            Operand::MemDisp(Reg64::R15, 0),
        ) + enc_push_es(Operand::Reg(Reg64::R15)),
        TokenView::Number(n) => enc_push_es(Operand::Imm64(n)),
        TokenView::BinaryOp(op) => enc_pop_es(Reg64::R8) + enc_pop_es(Reg64::R9) + (match op {
            Op::Plus => enc_add(Operand::Reg(Reg64::R8), Operand::Reg(Reg64::R9)) + enc_push_es(
                Operand::Reg(Reg64::R8),
            ),
            Op::Minus => enc_sub(Operand::Reg(Reg64::R9), Operand::Reg(Reg64::R8)) + enc_push_es(
                Operand::Reg(Reg64::R9),
            ),
            Op::Mult => enc_mov(Operand::Reg(Reg64::Rax), Operand::Reg(Reg64::R8)) + enc_imul(
                Operand::Reg(Reg64::R9),
            ) + enc_push_es(Operand::Reg(Reg64::Rax)),
            Op::Div => enc_mov(Operand::Reg(Reg64::Rax), Operand::Reg(Reg64::R9)) + enc_cqo()
                + enc_idiv(Operand::Reg(Reg64::R8)) + enc_push_es(Operand::Reg(Reg64::Rax)),
            Op::Pow => enc_native_call_hash(
                seq![Operand::Reg(Reg64::R9), Operand::Reg(Reg64::R8)],
            ),
            Op::Fact => seq![],
        }),
        TokenView::UnaryOp(op) => enc_pop_es(Reg64::R8) + (match op {
            Op::Plus => enc_push_es(Operand::Reg(Reg64::R8)),
            Op::Minus => enc_neg(Operand::Reg(Reg64::R8)) + enc_push_es(Operand::Reg(Reg64::R8)),
            Op::Fact => enc_native_call_hash(seq![Operand::Reg(Reg64::R8)]),
            _ => seq![],
        }),
        _ => seq![],
    }
}

/// The code of a whole postfix sequence, threading the catalog through
/// first-use slot assignment.
pub open spec fn code_seq(toks: Seq<TokenView>, cat: Seq<Seq<char>>, pow_addr: u64, fact_addr: u64) -> Seq<
    u8,
>
    decreases toks.len(),
{
    if toks.len() == 0 {
        seq![]
    } else {
        token_code(toks[0], slot_for(cat, toks[0]), pow_addr, fact_addr) + code_seq(
            toks.skip(1),
            insert_var(cat, toks[0]),
            pow_addr,
            fact_addr,
        )
    }
}

/// The digest-visible bytes of a whole postfix sequence. No helper address
/// appears: the digest is a function of the tokens and the initial catalog
/// alone.
pub open spec fn hash_seq(toks: Seq<TokenView>, cat: Seq<Seq<char>>) -> Seq<u8>
    decreases toks.len(),
{
    if toks.len() == 0 {
        seq![]
    } else {
        token_hash(toks[0], slot_for(cat, toks[0])) + hash_seq(toks.skip(1), insert_var(cat, toks[0]))
    }
}

/// The complete code blob of a compilation: prologue, argument loads, the
/// lowered tokens, the result pop into RAX, epilogue and return.
pub open spec fn full_code(toks: Seq<TokenView>, cat: Seq<Seq<char>>, pow_addr: u64, fact_addr: u64) -> Seq<
    u8,
> {
    enc_prologue() + enc_load_args() + code_seq(toks, cat, pow_addr, fact_addr) + enc_pop_es(
        Reg64::Rax,
    ) + enc_epilogue() + enc_ret()
}

/// The complete digest-visible byte stream of a compilation.
pub open spec fn full_hash(toks: Seq<TokenView>, cat: Seq<Seq<char>>) -> Seq<u8> {
    enc_prologue() + enc_load_args() + hash_seq(toks, cat) + enc_pop_es(Reg64::Rax)
        + enc_epilogue() + enc_ret()
}

/// Lowering one more token extends the code, the digest stream and the
/// catalog in lockstep.
proof fn lemma_lower_snoc(
    toks: Seq<TokenView>,
    t: TokenView,
    cat: Seq<Seq<char>>,
    pow_addr: u64,
    fact_addr: u64,
)
    ensures
        code_seq(toks.push(t), cat, pow_addr, fact_addr) == code_seq(toks, cat, pow_addr, fact_addr)
            + token_code(t, slot_for(record_vars(cat, toks), t), pow_addr, fact_addr),
        hash_seq(toks.push(t), cat) == hash_seq(toks, cat) + token_hash(
            t,
            slot_for(record_vars(cat, toks), t),
        ),
    decreases toks.len(),
{
    let p = pow_addr;
    let f = fact_addr;
    if toks.len() == 0 {
        assert(toks.push(t)[0] == t);
        assert(toks.push(t).skip(1) =~= Seq::<TokenView>::empty());
        assert(record_vars(cat, toks) == cat);
        let tc = token_code(t, slot_for(cat, t), p, f);
        let th = token_hash(t, slot_for(cat, t));
        assert(code_seq(toks.push(t), cat, p, f) == tc + code_seq(
            toks.push(t).skip(1),
            insert_var(cat, t),
            p,
            f,
        ));
        assert(code_seq(Seq::<TokenView>::empty(), insert_var(cat, t), p, f)
            == Seq::<u8>::empty());
        assert(hash_seq(Seq::<TokenView>::empty(), insert_var(cat, t)) == Seq::<u8>::empty());
        assert(tc + Seq::<u8>::empty() =~= tc);
        assert(Seq::<u8>::empty() + tc =~= tc);
        assert(th + Seq::<u8>::empty() =~= th);
        assert(Seq::<u8>::empty() + th =~= th);
    } else {
        assert(toks.push(t)[0] == toks[0]);
        assert(toks.push(t).skip(1) =~= toks.skip(1).push(t));
        let cat1 = insert_var(cat, toks[0]);
        lemma_lower_snoc(toks.skip(1), t, cat1, p, f);
        assert(record_vars(cat, toks) == record_vars(cat1, toks.skip(1)));
        let head_code = token_code(toks[0], slot_for(cat, toks[0]), p, f);
        let head_hash = token_hash(toks[0], slot_for(cat, toks[0]));
        let mid_code = code_seq(toks.skip(1), cat1, p, f);
        let mid_hash = hash_seq(toks.skip(1), cat1);
        let tail_code = token_code(t, slot_for(record_vars(cat1, toks.skip(1)), t), p, f);
        let tail_hash = token_hash(t, slot_for(record_vars(cat1, toks.skip(1)), t));
        assert(code_seq(toks.push(t), cat, p, f) == head_code + code_seq(
            toks.skip(1).push(t),
            cat1,
            p,
            f,
        ));
        assert(code_seq(toks.skip(1).push(t), cat1, p, f) == mid_code + tail_code);
        assert(hash_seq(toks.push(t), cat) == head_hash + hash_seq(toks.skip(1).push(t), cat1));
        assert(hash_seq(toks.skip(1).push(t), cat1) == mid_hash + tail_hash);
        assert(head_code + (mid_code + tail_code) =~= (head_code + mid_code) + tail_code);
        assert(head_hash + (mid_hash + tail_hash) =~= (head_hash + mid_hash) + tail_hash);
        assert(code_seq(toks, cat, p, f) == head_code + mid_code);
        assert(hash_seq(toks, cat) == head_hash + mid_hash);
    }
}

/// A postfix stream that never calls a native helper.
pub open spec fn no_native_calls(toks: Seq<TokenView>) -> bool {
    forall|i: int|
        0 <= i < toks.len() ==> !((#[trigger] toks[i]) matches TokenView::BinaryOp(Op::Pow)) && !(
        toks[i] matches TokenView::UnaryOp(Op::Fact))
}

proof fn lemma_code_seq_is_hash_seq(
    toks: Seq<TokenView>,
    cat: Seq<Seq<char>>,
    pow_addr: u64,
    fact_addr: u64,
)
    requires
        no_native_calls(toks),
    ensures
        code_seq(toks, cat, pow_addr, fact_addr) == hash_seq(toks, cat),
    decreases toks.len(),
{
    if toks.len() > 0 {
        assert(token_code(toks[0], slot_for(cat, toks[0]), pow_addr, fact_addr) == token_hash(
            toks[0],
            slot_for(cat, toks[0]),
        ));
        assert(forall|i: int|
            0 <= i < toks.skip(1).len() ==> #[trigger] toks.skip(1)[i] == toks[i + 1]);
        lemma_code_seq_is_hash_seq(toks.skip(1), insert_var(cat, toks[0]), pow_addr, fact_addr);
    }
}

/// The digest stream is the generated code with the native-call address
/// immediates removed: for an expression that calls no helper, the two are
/// byte-for-byte the same, whatever addresses were supplied. With helper
/// calls, the code depends on the addresses while the digest stream, which
/// takes none, cannot.
pub proof fn lemma_digest_stream_is_address_free_code(
    toks: Seq<TokenView>,
    cat: Seq<Seq<char>>,
    pow_addr: u64,
    fact_addr: u64,
)
    requires
        no_native_calls(toks),
    ensures
        full_code(toks, cat, pow_addr, fact_addr) == full_hash(toks, cat),
{
    lemma_code_seq_is_hash_seq(toks, cat, pow_addr, fact_addr);
}

/// The compiled artifact: the code blob, its integrity digest, and the
/// variable catalog the code indexes with.
#[derive(Debug)]
pub struct CompiledCode {
    /// The generated machine code.
    pub code: Vec<u8>,
    /// The SHA-256 digest over the logic-bearing bytes.
    pub integrity: Vec<u8>,
    /// Variable slots, in first-use order.
    pub variables_map: VarCatalog,
}

/// A JIT compiler for postfix expressions: generates machine code that
/// evaluates the expression against an evaluation-stack area and a variables
/// area.
pub struct Compiler {
    /// Mapping of variable names to their offsets in the variables area.
    variables_map: VarCatalog,
    /// The digest-visible bytes accumulated so far.
    hashed: Vec<u8>,
}

impl Compiler {
    /// The catalog accumulated so far.
    pub closed spec fn catalog(&self) -> Seq<Seq<char>> {
        self.variables_map@
    }

    /// The digest-visible bytes accumulated so far.
    pub closed spec fn hashed(&self) -> Seq<u8> {
        self.hashed@
    }

    /// The catalog holds no duplicate names.
    pub closed spec fn wf(&self) -> bool {
        self.variables_map.wf()
    }

    pub fn new() -> (r: Compiler)
        ensures
            r.catalog() == Seq::<Seq<char>>::empty(),
            r.hashed() == Seq::<u8>::empty(),
            r.wf(),
    {
        let r = Compiler { variables_map: VarCatalog::new(), hashed: Vec::new() };
        proof {
            assert(r.hashed() =~= Seq::<u8>::empty());
        }
        r
    }

    /// Append the code bytes emitted since `start` to the digest stream.
    #[verifier::loop_isolation(false)]
    fn update_integrity(&mut self, code: &Vec<u8>, start: usize)
        requires
            start <= code@.len(),
        ensures
            final(self).hashed() == old(self).hashed() + code@.skip(start as int),
            final(self).catalog() == old(self).catalog(),
            final(self).wf() == old(self).wf(),
    {
        let mut k: usize = start;
        proof {
            assert(self.hashed@ + code@.subrange(start as int, start as int) =~= self.hashed@);
        }
        while k < code.len()
            invariant
                start <= k <= code@.len(),
                self.variables_map == old(self).variables_map,
                self.hashed@ == old(self).hashed@ + code@.subrange(start as int, k as int),
            decreases code@.len() - k,
        {
            self.hashed.push(code[k]);
            proof {
                assert(old(self).hashed@ + code@.subrange(start as int, k + 1) =~= (
                old(self).hashed@ + code@.subrange(start as int, k as int)).push(code@[k as int]));
            }
            k = k + 1;
        }
        proof {
            assert(code@.subrange(start as int, code@.len() as int) =~= code@.skip(start as int));
        }
    }

    /// Emit a push of `op` onto the evaluation stack, and hash the emission.
    fn push_eval_stack(&mut self, codegen: &mut X86Asm, op: Operand)
        requires
            op is Reg || op is Imm64,
        ensures
            final(codegen)@ == old(codegen)@ + enc_push_es(op),
            final(self).hashed() == old(self).hashed() + enc_push_es(op),
            final(self).catalog() == old(self).catalog(),
            final(self).wf() == old(self).wf(),
    {
        let start = codegen.code().len();
        match op {
            Operand::Imm64(_) => {
                codegen.mov(Operand::Reg(Reg64::R15), op);
                codegen.mov(Operand::MemDisp(Reg64::R14, 0), Operand::Reg(Reg64::R15));
            },
            _ => {
                codegen.mov(Operand::MemDisp(Reg64::R14, 0), op);
            },
        }
        codegen.add(Operand::Reg(Reg64::R14), Operand::Imm64(8));
        proof {
            assert(codegen@ =~= old(codegen)@ + enc_push_es(op));
            assert(codegen@.skip(start as int) =~= enc_push_es(op));
        }
        self.update_integrity(codegen.code(), start);
    }

    /// Emit a pop of the evaluation-stack top into `reg`, and hash the
    /// emission.
    fn pop_eval_stack(&mut self, codegen: &mut X86Asm, reg: Reg64)
        ensures
            final(codegen)@ == old(codegen)@ + enc_pop_es(reg),
            final(self).hashed() == old(self).hashed() + enc_pop_es(reg),
            final(self).catalog() == old(self).catalog(),
            final(self).wf() == old(self).wf(),
    {
        let start = codegen.code().len();
        codegen.sub(Operand::Reg(Reg64::R14), Operand::Imm64(8));
        codegen.mov(Operand::Reg(reg), Operand::MemDisp(Reg64::R14, 0));
        proof {
            assert(codegen@ =~= old(codegen)@ + enc_pop_es(reg));
            assert(codegen@.skip(start as int) =~= enc_pop_es(reg));
        }
        self.update_integrity(codegen.code(), start);
    }

    /// Emit the prologue: save the preserved registers.
    fn compile_prologue(&mut self, codegen: &mut X86Asm)
        ensures
            final(codegen)@ == old(codegen)@ + enc_prologue(),
            final(self).hashed() == old(self).hashed() + enc_prologue(),
            final(self).catalog() == old(self).catalog(),
            final(self).wf() == old(self).wf(),
    {
        let start = codegen.code().len();
        codegen.push(Operand::Reg(Reg64::R12));
        codegen.push(Operand::Reg(Reg64::R13));
        codegen.push(Operand::Reg(Reg64::R14));
        codegen.push(Operand::Reg(Reg64::R15));
        codegen.push(Operand::Reg(Reg64::Rbx));
        codegen.push(Operand::Reg(Reg64::Rbp));
        codegen.push(Operand::Reg(Reg64::Rdi));
        codegen.push(Operand::Reg(Reg64::Rsi));
        proof {
            assert(codegen@ =~= old(codegen)@ + enc_prologue());
            assert(codegen@.skip(start as int) =~= enc_prologue());
        }
        self.update_integrity(codegen.code(), start);
    }

    /// Emit the epilogue: restore the preserved registers in reverse order.
    fn compile_epilogue(&mut self, codegen: &mut X86Asm)
        ensures
            final(codegen)@ == old(codegen)@ + enc_epilogue(),
            final(self).hashed() == old(self).hashed() + enc_epilogue(),
            final(self).catalog() == old(self).catalog(),
            final(self).wf() == old(self).wf(),
    {
        let start = codegen.code().len();
        codegen.pop(Operand::Reg(Reg64::Rsi));
        codegen.pop(Operand::Reg(Reg64::Rdi));
        codegen.pop(Operand::Reg(Reg64::Rbp));
        codegen.pop(Operand::Reg(Reg64::Rbx));
        codegen.pop(Operand::Reg(Reg64::R15));
        codegen.pop(Operand::Reg(Reg64::R14));
        codegen.pop(Operand::Reg(Reg64::R13));
        codegen.pop(Operand::Reg(Reg64::R12));
        proof {
            assert(codegen@ =~= old(codegen)@ + enc_epilogue());
            assert(codegen@.skip(start as int) =~= enc_epilogue());
        }
        self.update_integrity(codegen.code(), start);
    }

    /// The argument register for call-argument position `i`.
    fn calling_conv_reg(i: usize) -> (r: Reg64)
        requires
            i < 6,
        ensures
            r == spec_calling_conv(i as int),
    {
        if i == 0 {
            Reg64::Rdi
        } else if i == 1 {
            Reg64::Rsi
        } else if i == 2 {
            Reg64::Rdx
        } else if i == 3 {
            Reg64::Rcx
        } else if i == 4 {
            Reg64::R8
        } else {
            Reg64::R9
        }
    }

    /// Emit a call to a native helper at absolute address `func`: move the
    /// arguments into the convention's registers, stage the address in RAX,
    /// call it, and push the returned value. The address immediate is kept
    /// out of the digest.
    #[verifier::loop_isolation(false)]
    fn compile_native_call(&mut self, codegen: &mut X86Asm, func: u64, args: &[Operand])
        requires
            args@.len() <= 6,
            forall|i: int| 0 <= i < args@.len() ==> (#[trigger] args@[i]) is Reg,
        ensures
            final(codegen)@ == old(codegen)@ + enc_native_call_code(func, args@),
            final(self).hashed() == old(self).hashed() + enc_native_call_hash(args@),
            final(self).catalog() == old(self).catalog(),
            final(self).wf() == old(self).wf(),
    {
        let start = codegen.code().len();
        let mut i: usize = 0;
        while i < args.len()
            invariant
                i <= args@.len(),
                codegen@ + enc_native_movs(args@, i as int) == old(codegen)@ + enc_native_movs(
                    args@,
                    0,
                ),
                self.variables_map == old(self).variables_map,
                self.hashed@ == old(self).hashed@,
            decreases args@.len() - i,
        {
            codegen.mov(Operand::Reg(Self::calling_conv_reg(i)), args[i]);
            proof {
                assert((codegen@ + enc_native_movs(args@, i + 1)) =~= (codegen@ + enc_native_movs(
                    args@,
                    i + 1,
                )));
                assert(enc_native_movs(args@, i as int) == enc_mov(
                    Operand::Reg(spec_calling_conv(i as int)),
                    args@[i as int],
                ) + enc_native_movs(args@, i + 1));
                assert(codegen@ + enc_native_movs(args@, i + 1) =~= old(codegen)@
                    + enc_native_movs(args@, 0));
            }
            i = i + 1;
        }
        proof {
            assert(enc_native_movs(args@, args@.len() as int) =~= Seq::<u8>::empty());
            assert(codegen@ =~= codegen@ + enc_native_movs(args@, args@.len() as int));
            assert(codegen@ =~= old(codegen)@ + enc_native_movs(args@, 0));
            assert(codegen@.skip(start as int) =~= enc_native_movs(args@, 0));
        }
        self.update_integrity(codegen.code(), start);
        // The helper's absolute address must not enter the digest.
        codegen.mov(Operand::Reg(Reg64::Rax), Operand::Imm64(#[verifier::truncate] (func as i64)));
        let start2 = codegen.code().len();
        codegen.call(Operand::Reg(Reg64::Rax));
        proof {
            assert(codegen@.skip(start2 as int) =~= enc_call(Operand::Reg(Reg64::Rax)));
        }
        self.update_integrity(codegen.code(), start2);
        self.push_eval_stack(codegen, Operand::Reg(Reg64::Rax));
        proof {
            assert(codegen@ =~= old(codegen)@ + enc_native_call_code(func, args@));
            assert(self.hashed@ =~= old(self).hashed@ + enc_native_call_hash(args@));
        }
    }

    /// Emit the lowering of one postfix token, assigning a variable slot on
    /// first use and hashing everything but native-call address immediates.
    #[verifier::rlimit(100)]
    fn compile_token(&mut self, codegen: &mut X86Asm, token: &Token, pow_addr: u64, fact_addr: u64)
        requires
            old(self).wf(),
            crate::rpn_converter::is_rpn_token(token@),
            crate::rpn_evaluator::token_supported(token@),
            old(self).catalog().len() < 0x2000_0000,
        ensures
            final(codegen)@ == old(codegen)@ + token_code(
                token@,
                slot_for(old(self).catalog(), token@),
                pow_addr,
                fact_addr,
            ),
            final(self).hashed() == old(self).hashed() + token_hash(
                token@,
                slot_for(old(self).catalog(), token@),
            ),
            final(self).catalog() == insert_var(old(self).catalog(), token@),
            final(self).wf(),
            final(self).catalog().len() <= old(self).catalog().len() + 1,
    {
        let ghost tv = token@;
        let ghost cat_i = self.catalog();
        let ghost code_i = codegen@;
        let ghost hash_i = self.hashed();
        let ghost slot_g = slot_for(cat_i, tv);
        match token {
            Token::Variable(name) => {
                let slot = self.variables_map.lookup_or_insert(name);
                let offset_imm: i64 = (slot as i64) * 8;
                let start_v = codegen.code().len();
                codegen.mov(Operand::Reg(Reg64::R15), Operand::Reg(Reg64::R13));
                codegen.add(Operand::Reg(Reg64::R15), Operand::Imm64(offset_imm));
                codegen.mov(Operand::Reg(Reg64::R15), Operand::MemDisp(Reg64::R15, 0));
                proof {
                    assert(codegen@.skip(start_v as int) =~= enc_mov(
                        Operand::Reg(Reg64::R15),
                        Operand::Reg(Reg64::R13),
                    ) + enc_add(Operand::Reg(Reg64::R15), Operand::Imm64(offset_imm)) + enc_mov(
                        Operand::Reg(Reg64::R15),
                        Operand::MemDisp(Reg64::R15, 0),
                    ));
                }
                self.update_integrity(codegen.code(), start_v);
                self.push_eval_stack(&mut *codegen, Operand::Reg(Reg64::R15));
                proof {
                    assert(offset_imm as int == 8 * slot_g);
                    assert(codegen@ =~= code_i + token_code(tv, slot_g, pow_addr, fact_addr));
                    assert(self.hashed() =~= hash_i + token_hash(tv, slot_g));
                }
            },
            Token::Number(n) => {
                self.push_eval_stack(&mut *codegen, Operand::Imm64(*n));
            },
            Token::BinaryOp(op) => {
                self.pop_eval_stack(&mut *codegen, Reg64::R8);
                self.pop_eval_stack(&mut *codegen, Reg64::R9);
                match op {
                    Op::Plus => {
                        let start_b = codegen.code().len();
                        codegen.add(Operand::Reg(Reg64::R8), Operand::Reg(Reg64::R9));
                        proof {
                            assert(codegen@.skip(start_b as int) =~= enc_add(
                                Operand::Reg(Reg64::R8),
                                Operand::Reg(Reg64::R9),
                            ));
                        }
                        self.update_integrity(codegen.code(), start_b);
                        self.push_eval_stack(&mut *codegen, Operand::Reg(Reg64::R8));
                    },
                    Op::Minus => {
                        let start_b = codegen.code().len();
                        codegen.sub(Operand::Reg(Reg64::R9), Operand::Reg(Reg64::R8));
                        proof {
                            assert(codegen@.skip(start_b as int) =~= enc_sub(
                                Operand::Reg(Reg64::R9),
                                Operand::Reg(Reg64::R8),
                            ));
                        }
                        self.update_integrity(codegen.code(), start_b);
                        self.push_eval_stack(&mut *codegen, Operand::Reg(Reg64::R9));
                    },
                    Op::Mult => {
                        let start_b = codegen.code().len();
                        codegen.mov(Operand::Reg(Reg64::Rax), Operand::Reg(Reg64::R8));
                        codegen.imul(Operand::Reg(Reg64::R9));
                        proof {
                            assert(codegen@.skip(start_b as int) =~= enc_mov(
                                Operand::Reg(Reg64::Rax),
                                Operand::Reg(Reg64::R8),
                            ) + enc_imul(Operand::Reg(Reg64::R9)));
                        }
                        self.update_integrity(codegen.code(), start_b);
                        self.push_eval_stack(&mut *codegen, Operand::Reg(Reg64::Rax));
                    },
                    Op::Div => {
                        let start_b = codegen.code().len();
                        codegen.mov(Operand::Reg(Reg64::Rax), Operand::Reg(Reg64::R9));
                        codegen.cqo();
                        codegen.idiv(Operand::Reg(Reg64::R8));
                        proof {
                            assert(codegen@.skip(start_b as int) =~= enc_mov(
                                Operand::Reg(Reg64::Rax),
                                Operand::Reg(Reg64::R9),
                            ) + enc_cqo() + enc_idiv(Operand::Reg(Reg64::R8)));
                        }
                        self.update_integrity(codegen.code(), start_b);
                        self.push_eval_stack(&mut *codegen, Operand::Reg(Reg64::Rax));
                    },
                    Op::Pow => {
                        let args = [Operand::Reg(Reg64::R9), Operand::Reg(Reg64::R8)];
                        proof {
                            assert(args@ =~= seq![
                                Operand::Reg(Reg64::R9),
                                Operand::Reg(Reg64::R8),
                            ]);
                        }
                        self.compile_native_call(&mut *codegen, pow_addr, &args);
                    },
                    Op::Fact => {
                        proof {
                            assert(false);
                        }
                    },
                }
                proof {
                    assert(codegen@ =~= code_i + token_code(tv, slot_g, pow_addr, fact_addr));
                    assert(self.hashed() =~= hash_i + token_hash(tv, slot_g));
                }
            },
            Token::UnaryOp(op) => {
                self.pop_eval_stack(&mut *codegen, Reg64::R8);
                match op {
                    Op::Plus => {
                        self.push_eval_stack(&mut *codegen, Operand::Reg(Reg64::R8));
                    },
                    Op::Minus => {
                        let start_u = codegen.code().len();
                        codegen.neg(Operand::Reg(Reg64::R8));
                        proof {
                            assert(codegen@.skip(start_u as int) =~= enc_neg(
                                Operand::Reg(Reg64::R8),
                            ));
                        }
                        self.update_integrity(codegen.code(), start_u);
                        self.push_eval_stack(&mut *codegen, Operand::Reg(Reg64::R8));
                    },
                    Op::Fact => {
                        let args = [Operand::Reg(Reg64::R8)];
                        proof {
                            assert(args@ =~= seq![Operand::Reg(Reg64::R8)]);
                        }
                        self.compile_native_call(&mut *codegen, fact_addr, &args);
                    },
                    _ => {
                        proof {
                            assert(false);
                        }
                    },
                }
                proof {
                    assert(codegen@ =~= code_i + token_code(tv, slot_g, pow_addr, fact_addr));
                    assert(self.hashed() =~= hash_i + token_hash(tv, slot_g));
                }
            },
            _ => {
                proof {
                    assert(false);
                }
            },
        }
    }

    /// Compile a validated postfix expression into machine code, a variable
    /// catalog and an integrity digest.
    ///
    /// The code is exactly [`full_code`] for the expression, the carried
    /// catalog and the two helper addresses; the digest is the SHA-256 of
    /// the carried digest stream extended by [`full_hash`], which mentions
    /// no address. An operator with no lowering (`!` as binary, `* / ^` as
    /// unary) fails with `UnknownOp` and leaves the compiler unchanged.
    #[verifier::loop_isolation(false)]
    #[verifier::rlimit(100)]
    pub fn compile(&mut self, rpn: &RPNExpr, pow_addr: u64, fact_addr: u64) -> (r: Result<
        CompiledCode,
        CompilerError,
    >)
        requires
            old(self).wf(),
            valid_rpn(rpn@),
            old(self).catalog().len() + rpn@.len() <= 0x1000_0000,
        ensures
            ops_supported(rpn@) ==> ({
                &&& r matches Ok(cc)
                &&& cc.code@ == full_code(rpn@, old(self).catalog(), pow_addr, fact_addr)
                &&& cc.integrity@ == sha256_of(
                    old(self).hashed() + full_hash(rpn@, old(self).catalog()),
                )
                &&& cc.variables_map@ == record_vars(old(self).catalog(), rpn@)
                &&& final(self).catalog() == record_vars(old(self).catalog(), rpn@)
                &&& final(self).hashed() == old(self).hashed() + full_hash(
                    rpn@,
                    old(self).catalog(),
                )
            }),
            !ops_supported(rpn@) ==> ({
                &&& r == Err::<CompiledCode, CompilerError>(
                    CompilerError::UnknownOp(first_unknown_op(rpn@)),
                )
                &&& final(self).catalog() == old(self).catalog()
                &&& final(self).hashed() == old(self).hashed()
            }),
            final(self).wf(),
    {
        let ghost toks = rpn@;
        let ghost cat0 = self.catalog();
        let ghost hashed0 = self.hashed();
        // Reject operator variants with no lowering before emitting anything.
        let mut k: usize = 0;
        while k < rpn.0.len()
            invariant
                k <= toks.len(),
                toks == rpn@,
                self.variables_map == old(self).variables_map,
                self.hashed@ == old(self).hashed@,
                forall|m: int|
                    0 <= m < k ==> crate::rpn_evaluator::token_supported(#[trigger] toks[m]),
            decreases toks.len() - k,
        {
            proof {
                assert(toks[k as int] == rpn.0@[k as int]@);
            }
            match &rpn.0[k] {
                Token::BinaryOp(Op::Fact) => {
                    proof {
                        assert(!crate::rpn_evaluator::token_supported(toks[k as int]));
                        lemma_first_unknown_at(toks, k as int);
                        assert(op_of(toks[k as int]) == Op::Fact);
                    }
                    return Err(CompilerError::UnknownOp(Op::Fact));
                },
                Token::UnaryOp(Op::Mult) => {
                    proof {
                        assert(!crate::rpn_evaluator::token_supported(toks[k as int]));
                        lemma_first_unknown_at(toks, k as int);
                        assert(op_of(toks[k as int]) == Op::Mult);
                    }
                    return Err(CompilerError::UnknownOp(Op::Mult));
                },
                Token::UnaryOp(Op::Div) => {
                    proof {
                        assert(!crate::rpn_evaluator::token_supported(toks[k as int]));
                        lemma_first_unknown_at(toks, k as int);
                        assert(op_of(toks[k as int]) == Op::Div);
                    }
                    return Err(CompilerError::UnknownOp(Op::Div));
                },
                Token::UnaryOp(Op::Pow) => {
                    proof {
                        assert(!crate::rpn_evaluator::token_supported(toks[k as int]));
                        lemma_first_unknown_at(toks, k as int);
                        assert(op_of(toks[k as int]) == Op::Pow);
                    }
                    return Err(CompilerError::UnknownOp(Op::Pow));
                },
                _ => {},
            }
            k = k + 1;
        }
        proof {
            assert(ops_supported(toks));
        }
        let mut codegen = X86Asm::new();
        self.compile_prologue(&mut codegen);
        // Load the eval-stack base and the variables base into their roles.
        let start = codegen.code().len();
        codegen.mov(Operand::Reg(Reg64::R14), Operand::Reg(Reg64::Rdi));
        codegen.mov(Operand::Reg(Reg64::R13), Operand::Reg(Reg64::Rsi));
        proof {
            assert(codegen@.skip(start as int) =~= enc_load_args());
        }
        self.update_integrity(codegen.code(), start);
        let ghost preamble_code = enc_prologue() + enc_load_args();
        proof {
            assert(codegen@ =~= preamble_code);
            assert(self.hashed@ =~= hashed0 + preamble_code);
            assert(toks.take(0) =~= Seq::<TokenView>::empty());
            assert(codegen@ + code_seq(toks.take(0), cat0, pow_addr, fact_addr) =~= codegen@);
            assert(preamble_code + code_seq(toks.take(0), cat0, pow_addr, fact_addr) =~= codegen@);
            assert(hashed0 + (preamble_code + hash_seq(toks.take(0), cat0)) =~= self.hashed@);
        }
        let mut i: usize = 0;
        while i < rpn.0.len()
            invariant
                i <= toks.len(),
                toks == rpn@,
                self.wf(),
                codegen@ == preamble_code + code_seq(toks.take(i as int), cat0, pow_addr, fact_addr),
                self.hashed() == hashed0 + (preamble_code + hash_seq(toks.take(i as int), cat0)),
                self.catalog() == record_vars(cat0, toks.take(i as int)),
                self.catalog().len() <= cat0.len() + i,
                ops_supported(toks),
                crate::rpn_converter::all_rpn_tokens(toks),
            decreases toks.len() - i,
        {
            let ghost tv = toks[i as int];
            proof {
                assert(tv == rpn.0@[i as int]@);
                assert(toks.take(i + 1) =~= toks.take(i as int).push(tv));
                lemma_lower_snoc(toks.take(i as int), tv, cat0, pow_addr, fact_addr);
                lemma_record_vars_snoc(cat0, toks.take(i as int), tv);
                assert(crate::rpn_converter::is_rpn_token(tv));
                assert(crate::rpn_evaluator::token_supported(tv));
            }
            self.compile_token(&mut codegen, &rpn.0[i], pow_addr, fact_addr);
            proof {
                assert(codegen@ =~= preamble_code + code_seq(
                    toks.take(i + 1),
                    cat0,
                    pow_addr,
                    fact_addr,
                ));
                assert(self.hashed() =~= hashed0 + (preamble_code + hash_seq(
                    toks.take(i + 1),
                    cat0,
                )));
            }
            i = i + 1;
        }
        proof {
            assert(toks.take(toks.len() as int) =~= toks);
        }
        // The result is on top of the evaluation stack.
        self.pop_eval_stack(&mut codegen, Reg64::Rax);
        self.compile_epilogue(&mut codegen);
        let start_r = codegen.code().len();
        codegen.ret();
        proof {
            assert(codegen@.skip(start_r as int) =~= enc_ret());
        }
        self.update_integrity(codegen.code(), start_r);
        proof {
            assert(codegen@ =~= full_code(toks, cat0, pow_addr, fact_addr));
            assert(self.hashed@ =~= hashed0 + full_hash(toks, cat0));
        }
        let integrity = sha256(&self.hashed);
        let catalog_out = self.variables_map.clone_catalog();
        Ok(CompiledCode { code: codegen.into_code(), integrity, variables_map: catalog_out })
    }
}

} // verus!
