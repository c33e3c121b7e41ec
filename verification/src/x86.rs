//! x86-64 instruction emitters producing REX/ModR/M/immediate encodings.
//!
//! Every emitter appends the exact byte sequence given by the corresponding
//! `enc_*` specification function, so callers can reason about the generated
//! code byte for byte.

use vstd::prelude::*;

use crate::writer::Writer;
use crate::writer::le32;
use crate::writer::le64;

verus! {

/// The sixteen general-purpose 64-bit registers.
#[derive(Debug, Clone, Copy)]
pub enum Reg64 {
    Rax,
    Rcx,
    Rdx,
    Rbx,
    Rsp,
    Rbp,
    Rsi,
    Rdi,
    R8,
    R9,
    R10,
    R11,
    R12,
    R13,
    R14,
    R15,
}

impl Reg64 {
    /// The hardware register number (0 through 15).
    pub open spec fn num(self) -> u8 {
        match self {
            Reg64::Rax => 0,
            Reg64::Rcx => 1,
            Reg64::Rdx => 2,
            Reg64::Rbx => 3,
            Reg64::Rsp => 4,
            Reg64::Rbp => 5,
            Reg64::Rsi => 6,
            Reg64::Rdi => 7,
            Reg64::R8 => 8,
            Reg64::R9 => 9,
            Reg64::R10 => 10,
            Reg64::R11 => 11,
            Reg64::R12 => 12,
            Reg64::R13 => 13,
            Reg64::R14 => 14,
            Reg64::R15 => 15,
        }
    }

    /// The hardware register number, as executable code.
    pub fn index(self) -> (r: u8)
        ensures
            r == self.num(),
    {
        match self {
            Reg64::Rax => 0,
            Reg64::Rcx => 1,
            Reg64::Rdx => 2,
            Reg64::Rbx => 3,
            Reg64::Rsp => 4,
            Reg64::Rbp => 5,
            Reg64::Rsi => 6,
            Reg64::Rdi => 7,
            Reg64::R8 => 8,
            Reg64::R9 => 9,
            Reg64::R10 => 10,
            Reg64::R11 => 11,
            Reg64::R12 => 12,
            Reg64::R13 => 13,
            Reg64::R14 => 14,
            Reg64::R15 => 15,
        }
    }
}

/// A typed instruction operand.
#[derive(Debug, Clone, Copy)]
pub enum Operand {
    Reg(Reg64),
    Imm64(i64),
    Imm32(i32),
    Imm16(i16),
    Imm8(i8),
    MemDisp(Reg64, i32),
    MemAbs(Reg64),
}

impl Operand {
    /// The register encoded in the ModR/M r/m field: the register itself for a
    /// direct operand, the base register for a memory operand.
    pub open spec fn base_reg(self) -> Reg64 {
        match self {
            Operand::Reg(r) => r,
            Operand::MemDisp(r, _) => r,
            Operand::MemAbs(r) => r,
            _ => Reg64::Rax,
        }
    }
}

/// The REX.B (or REX.R) contribution of a register: 1 for r8 through r15.
pub open spec fn rex_bit(r: Reg64) -> u8 {
    if r.num() >= 8 {
        1
    } else {
        0
    }
}

/// The low three bits of a register number, as placed in ModR/M fields.
pub open spec fn low3(r: Reg64) -> u8 {
    r.num() & 0b111
}

/// REX prefix for the /digit and OI forms: only the operand's base register
/// can require an extension bit. Omitted entirely when not needed.
pub open spec fn enc_rex_slash(arg: Operand, w: u8) -> Seq<u8> {
    let reg = arg.base_reg();
    if w == 0 && reg.num() < 8 {
        seq![]
    } else {
        seq![0b0100_0000u8 | (w << 3) | rex_bit(reg)]
    }
}

/// REX prefix for the MR form (register source, register or memory
/// destination).
pub open spec fn enc_rex_mr(dst: Operand, src: Operand, w: u8) -> Seq<u8> {
    if dst is Reg && src is Reg && dst.base_reg().num() < 8 && src.base_reg().num() < 8 && w == 0 {
        seq![]
    } else {
        seq![
            0b0100_0000u8 | (w << 3) | (rex_bit(src.base_reg()) << 2) | rex_bit(dst.base_reg()),
        ]
    }
}

/// REX prefix for the RM form (register destination, register or memory
/// source).
pub open spec fn enc_rex_rm(dst: Operand, src: Operand, w: u8) -> Seq<u8> {
    if dst is Reg && src is Reg && dst.base_reg().num() < 8 && src.base_reg().num() < 8 {
        seq![]
    } else {
        seq![
            0b0100_0000u8 | (w << 3) | (rex_bit(dst.base_reg()) << 2) | rex_bit(src.base_reg()),
        ]
    }
}

/// ModR/M byte (and displacement, for memory operands) for a given low six
/// bits: register-direct uses mod 11, base-plus-displacement uses mod 10 with
/// a little-endian 32-bit displacement.
pub open spec fn enc_modrm(modrm_low: u8, rm: Operand) -> Seq<u8> {
    match rm {
        Operand::Reg(_) => seq![(0b11u8 << 6) | modrm_low],
        Operand::MemDisp(_, offset) => seq![(0b10u8 << 6) | modrm_low] + le32(offset as u32),
        _ => seq![],
    }
}

/// ModR/M bytes with a register in the reg field and an r/m operand.
pub open spec fn enc_modrm_rm(dst: Reg64, src: Operand) -> Seq<u8> {
    enc_modrm((low3(dst) << 3) | low3(src.base_reg()), src)
}

/// ModR/M bytes with an r/m destination and a register source.
pub open spec fn enc_modrm_mr(dst: Operand, src: Reg64) -> Seq<u8> {
    enc_modrm((low3(src) << 3) | low3(dst.base_reg()), dst)
}

/// ModR/M bytes with an opcode extension digit in the reg field.
pub open spec fn enc_modrm_slash(slash: u8, rm: Operand) -> Seq<u8> {
    enc_modrm((slash << 3) | low3(rm.base_reg()), rm)
}

/// Encoding of `neg r/m64` (F7 /3), register-direct form.
pub open spec fn enc_neg(dst: Operand) -> Seq<u8> {
    enc_rex_slash(dst, 1) + seq![0xf7u8] + enc_modrm_slash(3, dst)
}

/// Encoding of `add`: register-to-register (01 /r) or sign-extended 32-bit
/// immediate (81 /0).
pub open spec fn enc_add(dst: Operand, src: Operand) -> Seq<u8> {
    match src {
        Operand::Reg(src_reg) => enc_rex_mr(dst, src, 1) + seq![0x01u8] + enc_modrm_mr(
            dst,
            src_reg,
        ),
        Operand::Imm64(imm) => enc_rex_slash(dst, 1) + seq![0x81u8] + enc_modrm_slash(0, dst)
            + le32(imm as u32),
        _ => seq![],
    }
}

/// Encoding of `sub`: register-to-register (29 /r) or immediate (81 /5).
pub open spec fn enc_sub(dst: Operand, src: Operand) -> Seq<u8> {
    match src {
        Operand::Reg(src_reg) => enc_rex_mr(dst, src, 1) + seq![0x29u8] + enc_modrm_mr(
            dst,
            src_reg,
        ),
        Operand::Imm64(imm) => enc_rex_slash(dst, 1) + seq![0x81u8] + enc_modrm_slash(5, dst)
            + le32(imm as u32),
        _ => seq![],
    }
}

/// Encoding of `sbb`: register-to-register (19 /r) or immediate (81 /3).
pub open spec fn enc_sbb(dst: Operand, src: Operand) -> Seq<u8> {
    match src {
        Operand::Reg(src_reg) => enc_rex_mr(dst, src, 1) + seq![0x19u8] + enc_modrm_mr(
            dst,
            src_reg,
        ),
        Operand::Imm64(imm) => enc_rex_slash(dst, 1) + seq![0x81u8] + enc_modrm_slash(3, dst)
            + le32(imm as u32),
        _ => seq![],
    }
}

/// Encoding of `mul r/m64` (F7 /4).
pub open spec fn enc_mul(src: Operand) -> Seq<u8> {
    enc_rex_slash(src, 1) + seq![0xf7u8] + enc_modrm_slash(4, src)
}

/// Encoding of `imul r/m64` (F7 /5), the one-operand RDX:RAX form.
pub open spec fn enc_imul(src: Operand) -> Seq<u8> {
    enc_rex_slash(src, 1) + seq![0xf7u8] + enc_modrm_slash(5, src)
}

/// Encoding of `div r/m64` (F7 /6).
pub open spec fn enc_div(src: Operand) -> Seq<u8> {
    enc_rex_slash(src, 1) + seq![0xf7u8] + enc_modrm_slash(6, src)
}

/// Encoding of `idiv r/m64` (F7 /7).
pub open spec fn enc_idiv(src: Operand) -> Seq<u8> {
    enc_rex_slash(src, 1) + seq![0xf7u8] + enc_modrm_slash(7, src)
}

/// Encoding of `cqo` (48 99): sign-extend RAX into RDX:RAX.
pub open spec fn enc_cqo() -> Seq<u8> {
    seq![0x48u8, 0x99u8]
}

/// Encoding of `call r/m64` (FF /2), register-indirect form.
pub open spec fn enc_call(target: Operand) -> Seq<u8> {
    enc_rex_slash(target, 1) + seq![0xffu8] + enc_modrm_slash(2, target)
}

/// Encoding of `ret` (C3).
pub open spec fn enc_ret() -> Seq<u8> {
    seq![0xc3u8]
}

/// Encoding of `mov` for the five supported operand combinations:
/// register-to-register (89 /r), full 64-bit immediate to register (B8+rd),
/// register to memory (89 /r), sign-extended 32-bit immediate to memory
/// (C7 /0), and memory to register (8B /r).
pub open spec fn enc_mov(dst: Operand, src: Operand) -> Seq<u8> {
    match (dst, src) {
        (Operand::Reg(_), Operand::Reg(src_reg)) => enc_rex_mr(dst, src, 1) + seq![0x89u8]
            + enc_modrm_mr(dst, src_reg),
        (Operand::Reg(dst_reg), Operand::Imm64(imm)) => enc_rex_slash(dst, 1) + seq![
            0xb8u8 | low3(dst_reg),
        ] + le64(imm as u64),
        (Operand::MemDisp(_, _), Operand::Reg(src_reg)) => enc_rex_mr(dst, src, 1) + seq![0x89u8]
            + enc_modrm_mr(dst, src_reg),
        (Operand::MemDisp(_, _), Operand::Imm64(imm)) => enc_rex_slash(dst, 1) + seq![0xc7u8]
            + enc_modrm_slash(0, dst) + le32(imm as u32),
        (Operand::Reg(dst_reg), Operand::MemDisp(_, _)) => enc_rex_rm(dst, src, 1) + seq![0x8bu8]
            + enc_modrm_rm(dst_reg, src),
        _ => seq![],
    }
}

/// Encoding of `push`: register form (50+rd with REX.W) or 32-bit immediate
/// (68).
pub open spec fn enc_push(src: Operand) -> Seq<u8> {
    match src {
        Operand::Reg(src_reg) => enc_rex_slash(src, 1) + seq![0x50u8 | low3(src_reg)],
        Operand::Imm64(imm) => seq![0x68u8] + le32(imm as u32),
        _ => seq![],
    }
}

/// Encoding of `pop`: register form (58+rd with REX.W).
pub open spec fn enc_pop(dst: Operand) -> Seq<u8> {
    enc_rex_slash(dst, 1) + seq![0x58u8 | low3(dst.base_reg())]
}

/// Typed x86-64 assembler over a byte writer. The view is the code emitted so
/// far.
pub struct X86Asm {
    writer: Writer,
}

impl View for X86Asm {
    type V = Seq<u8>;

    closed spec fn view(&self) -> Seq<u8> {
        self.writer@
    }
}

impl X86Asm {
    pub fn new() -> (r: X86Asm)
        ensures
            r@ == Seq::<u8>::empty(),
    {
        X86Asm { writer: Writer::new() }
    }

    /// The code emitted so far.
    pub fn code(&self) -> (r: &Vec<u8>)
        ensures
            r@ == self@,
    {
        self.writer.bytes()
    }

    /// Surrender the emitted code.
    pub fn into_code(self) -> (r: Vec<u8>)
        ensures
            r@ == self@,
    {
        self.writer.into_bytes()
    }

    fn emit_rex_oi(&mut self, arg: Operand, w: u8)
        requires
            arg is Reg || arg is MemDisp,
        ensures
            final(self)@ == old(self)@ + enc_rex_slash(arg, w),
    {
        self.emit_rex_slash(arg, w);
    }

    fn emit_rex_slash(&mut self, arg: Operand, w: u8)
        requires
            arg is Reg || arg is MemDisp,
        ensures
            final(self)@ == old(self)@ + enc_rex_slash(arg, w),
    {
        match arg {
            Operand::Reg(reg) | Operand::MemDisp(reg, _) => {
                if w == 0 && reg.index() < 8 {
                    proof {
                        assert(self@ =~= old(self)@ + enc_rex_slash(arg, w));
                    }
                    return ;
                }
                let is_b: u8 = if reg.index() >= 8 {
                    1
                } else {
                    0
                };
                let rex: u8 = 0b0100_0000u8 | (w << 3) | is_b;
                self.writer.emit8(rex);
            },
            _ => {
                proof {
                    assert(false);
                }
            },
        }
    }

    fn emit_rex_mr(&mut self, dst: Operand, src: Operand, w: u8)
        requires
            (dst is Reg || dst is MemDisp) && src is Reg,
        ensures
            final(self)@ == old(self)@ + enc_rex_mr(dst, src, w),
    {
        match (dst, src) {
            (Operand::Reg(dst_reg), Operand::Reg(src_reg)) if dst_reg.index() < 8
                && src_reg.index() < 8 && w == 0 => {
                proof {
                    assert(self@ =~= old(self)@ + enc_rex_mr(dst, src, w));
                }
            },
            (Operand::Reg(dst_reg), Operand::Reg(src_reg))
            | (Operand::MemDisp(dst_reg, _), Operand::Reg(src_reg)) => {
                let is_b: u8 = if dst_reg.index() >= 8 {
                    1
                } else {
                    0
                };
                let is_r: u8 = if src_reg.index() >= 8 {
                    1
                } else {
                    0
                };
                let rex: u8 = 0b0100_0000u8 | (w << 3) | (is_r << 2) | is_b;
                self.writer.emit8(rex);
            },
            _ => {
                proof {
                    assert(false);
                }
            },
        }
    }

    fn emit_rex_rm(&mut self, dst: Operand, src: Operand, w: u8)
        requires
            dst is Reg && (src is Reg || src is MemDisp),
        ensures
            final(self)@ == old(self)@ + enc_rex_rm(dst, src, w),
    {
        match (dst, src) {
            (Operand::Reg(dst_reg), Operand::Reg(src_reg)) if dst_reg.index() < 8
                && src_reg.index() < 8 => {
                proof {
                    assert(self@ =~= old(self)@ + enc_rex_rm(dst, src, w));
                }
            },
            (Operand::Reg(dst_reg), Operand::Reg(src_reg))
            | (Operand::Reg(dst_reg), Operand::MemDisp(src_reg, _)) => {
                let is_b: u8 = if src_reg.index() >= 8 {
                    1
                } else {
                    0
                };
                let is_r: u8 = if dst_reg.index() >= 8 {
                    1
                } else {
                    0
                };
                let rex: u8 = 0b0100_0000u8 | (w << 3) | (is_r << 2) | is_b;
                self.writer.emit8(rex);
            },
            _ => {
                proof {
                    assert(false);
                }
            },
        }
    }

    fn emit_modrm(&mut self, modrm_low: u8, rm: Operand)
        requires
            rm is Reg || rm is MemDisp,
        ensures
            final(self)@ == old(self)@ + enc_modrm(modrm_low, rm),
    {
        match rm {
            Operand::Reg(_) => {
                self.writer.emit8((0b11u8 << 6) | modrm_low);
            },
            Operand::MemDisp(_, offset) => {
                self.writer.emit8((0b10u8 << 6) | modrm_low);
                self.writer.emit32(offset as u32);
                proof {
                    assert(self@ =~= old(self)@ + enc_modrm(modrm_low, rm));
                }
            },
            _ => {
                proof {
                    assert(false);
                }
            },
        }
    }

    fn emit_modrm_rm(&mut self, dst: Reg64, src: Operand)
        requires
            src is Reg || src is MemDisp,
        ensures
            final(self)@ == old(self)@ + enc_modrm_rm(dst, src),
    {
        let src_reg = match src {
            Operand::Reg(src_reg) => src_reg,
            Operand::MemDisp(base_reg, _) => base_reg,
            _ => Reg64::Rax,
        };
        let modrm_low = (Self::encode_reg(dst) << 3) | Self::encode_reg(src_reg);
        self.emit_modrm(modrm_low, src);
    }

    fn emit_modrm_mr(&mut self, dst: Operand, src: Reg64)
        requires
            dst is Reg || dst is MemDisp,
        ensures
            final(self)@ == old(self)@ + enc_modrm_mr(dst, src),
    {
        let dst_reg = match dst {
            Operand::Reg(dst_reg) => dst_reg,
            Operand::MemDisp(base_reg, _) => base_reg,
            _ => Reg64::Rax,
        };
        let modrm_low = (Self::encode_reg(src) << 3) | Self::encode_reg(dst_reg);
        self.emit_modrm(modrm_low, dst);
    }

    fn emit_modrm_slash(&mut self, slash: u8, rm: Operand)
        requires
            rm is Reg || rm is MemDisp,
            slash < 8,
        ensures
            final(self)@ == old(self)@ + enc_modrm_slash(slash, rm),
    {
        let reg = match rm {
            Operand::Reg(dst_reg) => dst_reg,
            Operand::MemDisp(base_reg, _) => base_reg,
            _ => Reg64::Rax,
        };
        let modrm_low = (slash << 3) | Self::encode_reg(reg);
        self.emit_modrm(modrm_low, rm);
    }

    fn encode_reg(reg: Reg64) -> (r: u8)
        ensures
            r == low3(reg),
    {
        reg.index() & 0b111
    }

    /// Emit `neg` on a register operand.
    pub fn neg(&mut self, dst: Operand)
        requires
            dst is Reg,
        ensures
            final(self)@ == old(self)@ + enc_neg(dst),
    {
        self.emit_rex_oi(dst, 1);
        self.writer.emit8(0xf7);
        self.emit_modrm_slash(3, dst);
        proof {
            assert(self@ =~= old(self)@ + enc_neg(dst));
        }
    }

    /// Emit `add` with a register destination and a register or 64-bit
    /// immediate source (the immediate is emitted sign-extended from 32 bits).
    pub fn add(&mut self, dst: Operand, src: Operand)
        requires
            dst is Reg,
            src is Reg || src is Imm64,
        ensures
            final(self)@ == old(self)@ + enc_add(dst, src),
    {
        match (dst, src) {
            (Operand::Reg(_), Operand::Reg(src_reg)) => {
                self.emit_rex_mr(dst, src, 1);
                self.writer.emit8(0x01);
                self.emit_modrm_mr(dst, src_reg);
                proof {
                    assert(self@ =~= old(self)@ + enc_add(dst, src));
                }
            },
            (Operand::Reg(_), Operand::Imm64(imm)) => {
                self.emit_rex_slash(dst, 1);
                self.writer.emit8(0x81);
                self.emit_modrm_slash(0, dst);
                self.writer.emit32(imm as u32);
                proof {
                    assert(self@ =~= old(self)@ + enc_add(dst, src));
                }
            },
            _ => {
                proof {
                    assert(false);
                }
            },
        }
    }

    /// Emit `sub` with a register destination and a register or 64-bit
    /// immediate source.
    pub fn sub(&mut self, dst: Operand, src: Operand)
        requires
            dst is Reg,
            src is Reg || src is Imm64,
        ensures
            final(self)@ == old(self)@ + enc_sub(dst, src),
    {
        match (dst, src) {
            (Operand::Reg(_), Operand::Reg(src_reg)) => {
                self.emit_rex_mr(dst, src, 1);
                self.writer.emit8(0x29);
                self.emit_modrm_mr(dst, src_reg);
                proof {
                    assert(self@ =~= old(self)@ + enc_sub(dst, src));
                }
            },
            (Operand::Reg(_), Operand::Imm64(imm)) => {
                self.emit_rex_slash(dst, 1);
                self.writer.emit8(0x81);
                self.emit_modrm_slash(5, dst);
                self.writer.emit32(imm as u32);
                proof {
                    assert(self@ =~= old(self)@ + enc_sub(dst, src));
                }
            },
            _ => {
                proof {
                    assert(false);
                }
            },
        }
    }

    /// Emit `sbb` with a register destination and a register or 64-bit
    /// immediate source.
    pub fn sbb(&mut self, dst: Operand, src: Operand)
        requires
            dst is Reg,
            src is Reg || src is Imm64,
        ensures
            final(self)@ == old(self)@ + enc_sbb(dst, src),
    {
        match (dst, src) {
            (Operand::Reg(_), Operand::Reg(src_reg)) => {
                self.emit_rex_mr(dst, src, 1);
                self.writer.emit8(0x19);
                self.emit_modrm_mr(dst, src_reg);
                proof {
                    assert(self@ =~= old(self)@ + enc_sbb(dst, src));
                }
            },
            (Operand::Reg(_), Operand::Imm64(imm)) => {
                self.emit_rex_slash(dst, 1);
                self.writer.emit8(0x81);
                self.emit_modrm_slash(3, dst);
                self.writer.emit32(imm as u32);
                proof {
                    assert(self@ =~= old(self)@ + enc_sbb(dst, src));
                }
            },
            _ => {
                proof {
                    assert(false);
                }
            },
        }
    }

    /// Emit one-operand `mul` on a register operand.
    pub fn mul(&mut self, src: Operand)
        requires
            src is Reg,
        ensures
            final(self)@ == old(self)@ + enc_mul(src),
    {
        self.emit_rex_oi(src, 1);
        self.writer.emit8(0xf7);
        self.emit_modrm_slash(4, src);
        proof {
            assert(self@ =~= old(self)@ + enc_mul(src));
        }
    }

    /// Emit one-operand `imul` on a register operand.
    pub fn imul(&mut self, src: Operand)
        requires
            src is Reg,
        ensures
            final(self)@ == old(self)@ + enc_imul(src),
    {
        self.emit_rex_oi(src, 1);
        self.writer.emit8(0xf7);
        self.emit_modrm_slash(5, src);
        proof {
            assert(self@ =~= old(self)@ + enc_imul(src));
        }
    }

    /// Emit one-operand `div` on a register operand.
    pub fn div(&mut self, src: Operand)
        requires
            src is Reg,
        ensures
            final(self)@ == old(self)@ + enc_div(src),
    {
        self.emit_rex_oi(src, 1);
        self.writer.emit8(0xf7);
        self.emit_modrm_slash(6, src);
        proof {
            assert(self@ =~= old(self)@ + enc_div(src));
        }
    }

    /// Emit one-operand `idiv` on a register operand.
    pub fn idiv(&mut self, src: Operand)
        requires
            src is Reg,
        ensures
            final(self)@ == old(self)@ + enc_idiv(src),
    {
        self.emit_rex_oi(src, 1);
        self.writer.emit8(0xf7);
        self.emit_modrm_slash(7, src);
        proof {
            assert(self@ =~= old(self)@ + enc_idiv(src));
        }
    }

    /// Emit `cqo`.
    pub fn cqo(&mut self)
        ensures
            final(self)@ == old(self)@ + enc_cqo(),
    {
        self.writer.emit8(0x48);
        self.writer.emit8(0x99);
        proof {
            assert(self@ =~= old(self)@ + enc_cqo());
        }
    }

    /// Emit a register-indirect `call`.
    pub fn call(&mut self, target: Operand)
        requires
            target is Reg,
        ensures
            final(self)@ == old(self)@ + enc_call(target),
    {
        self.emit_rex_oi(target, 1);
        self.writer.emit8(0xff);
        self.emit_modrm_slash(2, target);
        proof {
            assert(self@ =~= old(self)@ + enc_call(target));
        }
    }

    /// Emit `ret`.
    pub fn ret(&mut self)
        ensures
            final(self)@ == old(self)@ + enc_ret(),
    {
        self.writer.emit8(0xc3);
        proof {
            assert(self@ =~= old(self)@ + enc_ret());
        }
    }

    /// Emit `mov` for one of the five supported operand combinations.
    pub fn mov(&mut self, dst: Operand, src: Operand)
        requires
            (dst is Reg && (src is Reg || src is Imm64 || src is MemDisp)) || (dst is MemDisp && (
            src is Reg || src is Imm64)),
        ensures
            final(self)@ == old(self)@ + enc_mov(dst, src),
    {
        match (dst, src) {
            // mov reg, reg
            (Operand::Reg(_), Operand::Reg(src_reg)) => {
                self.emit_rex_mr(dst, src, 1);
                self.writer.emit8(0x89);
                self.emit_modrm_mr(dst, src_reg);
                proof {
                    assert(self@ =~= old(self)@ + enc_mov(dst, src));
                }
            },
            // mov reg, imm
            (Operand::Reg(dst_reg), Operand::Imm64(imm)) => {
                self.emit_rex_oi(dst, 1);
                self.writer.emit8(0xb8 | Self::encode_reg(dst_reg));
                self.writer.emit64(imm as u64);
                proof {
                    assert(self@ =~= old(self)@ + enc_mov(dst, src));
                }
            },
            // mov [base_reg + offset], reg
            (Operand::MemDisp(_, _), Operand::Reg(src_reg)) => {
                self.emit_rex_mr(dst, src, 1);
                self.writer.emit8(0x89);
                self.emit_modrm_mr(dst, src_reg);
                proof {
                    assert(self@ =~= old(self)@ + enc_mov(dst, src));
                }
            },
            // mov [base_reg + offset], imm
            (Operand::MemDisp(_, _), Operand::Imm64(imm)) => {
                self.emit_rex_slash(dst, 1);
                self.writer.emit8(0xc7);
                self.emit_modrm_slash(0, dst);
                self.writer.emit32(imm as u32);
                proof {
                    assert(self@ =~= old(self)@ + enc_mov(dst, src));
                }
            },
            // mov reg, [base_reg + offset]
            (Operand::Reg(dst_reg), Operand::MemDisp(_, _)) => {
                self.emit_rex_rm(dst, src, 1);
                self.writer.emit8(0x8b);
                self.emit_modrm_rm(dst_reg, src);
                proof {
                    assert(self@ =~= old(self)@ + enc_mov(dst, src));
                }
            },
            _ => {
                proof {
                    assert(false);
                }
            },
        }
    }

    /// Emit `push` on a register or 32-bit immediate operand.
    pub fn push(&mut self, src: Operand)
        requires
            src is Reg || src is Imm64,
        ensures
            final(self)@ == old(self)@ + enc_push(src),
    {
        match src {
            Operand::Reg(src_reg) => {
                self.emit_rex_oi(src, 1);
                self.writer.emit8(0x50 | Self::encode_reg(src_reg));
                proof {
                    assert(self@ =~= old(self)@ + enc_push(src));
                }
            },
            Operand::Imm64(imm) => {
                self.writer.emit8(0x68);
                self.writer.emit32(imm as u32);
                proof {
                    assert(self@ =~= old(self)@ + enc_push(src));
                }
            },
            _ => {
                proof {
                    assert(false);
                }
            },
        }
    }

    /// Emit `pop` on a register operand.
    pub fn pop(&mut self, dst: Operand)
        requires
            dst is Reg,
        ensures
            final(self)@ == old(self)@ + enc_pop(dst),
    {
        match dst {
            Operand::Reg(dst_reg) => {
                self.emit_rex_oi(dst, 1);
                self.writer.emit8(0x58 | Self::encode_reg(dst_reg));
                proof {
                    assert(self@ =~= old(self)@ + enc_pop(dst));
                }
            },
            _ => {
                proof {
                    assert(false);
                }
            },
        }
    }
}

} // verus!
