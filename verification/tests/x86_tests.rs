use math_evaluator::x86::Operand::{Imm64, MemDisp, Reg};
use math_evaluator::x86::Reg64::{Rax, Rbp, Rbx, Rsp, R15, R8};
use math_evaluator::x86::X86Asm;

#[test]
fn test_x86_64_codegen_neg() {
    let mut codegen = X86Asm::new();
    codegen.neg(Reg(Rax));
    codegen.neg(Reg(R8));
    codegen.neg(Reg(Rsp));

    let code = codegen.code();
    assert_eq!(
        code,
        &vec![
            0x48, 0xf7, 0xd8, // neg rax
            0x49, 0xf7, 0xd8, // neg r8
            0x48, 0xf7, 0xdc, // neg rsp
        ]
    );
}

#[test]
fn test_x86_64_codegen_div() {
    let mut codegen = X86Asm::new();
    codegen.div(Reg(Rax));
    codegen.div(Reg(R8));
    codegen.div(Reg(Rsp));

    let code = codegen.code();
    assert_eq!(
        code,
        &vec![
            0x48, 0xf7, 0xf0, // div rax
            0x49, 0xf7, 0xf0, // div r8
            0x48, 0xf7, 0xf4, // div rsp
        ]
    );
}

#[test]
fn test_x86_64_codegen_idiv() {
    let mut codegen = X86Asm::new();
    codegen.idiv(Reg(Rax));
    codegen.idiv(Reg(R8));
    codegen.idiv(Reg(Rsp));

    let code = codegen.code();
    assert_eq!(
        code,
        &vec![
            0x48, 0xf7, 0xf8, // idiv rax
            0x49, 0xf7, 0xf8, // idiv r8
            0x48, 0xf7, 0xfc, // idiv rsp
        ]
    );
}

#[test]
fn test_x86_64_codegen_mul() {
    let mut codegen = X86Asm::new();
    codegen.mul(Reg(Rax));
    codegen.mul(Reg(R8));
    codegen.mul(Reg(Rsp));

    let code = codegen.code();
    assert_eq!(
        code,
        &vec![
            0x48, 0xf7, 0xe0, // mul rax
            0x49, 0xf7, 0xe0, // mul r8
            0x48, 0xf7, 0xe4, // mul rsp
        ]
    );
}

#[test]
fn test_x86_64_codegen_imul() {
    let mut codegen = X86Asm::new();
    codegen.imul(Reg(Rax));
    codegen.imul(Reg(R8));
    codegen.imul(Reg(Rsp));

    let code = codegen.code();
    assert_eq!(
        code,
        &vec![
            0x48, 0xf7, 0xe8, // imul rax
            0x49, 0xf7, 0xe8, // imul r8
            0x48, 0xf7, 0xec, // imul rsp
        ]
    );
}

#[test]
fn test_x86_64_codegen_sub() {
    let mut codegen = X86Asm::new();
    codegen.sub(Reg(Rax), Reg(Rbx));
    codegen.sub(Reg(Rax), Imm64(0x1234));
    codegen.sub(Reg(R15), Reg(Rbp));
    codegen.sub(Reg(R8), Imm64(0x45464748));

    let code = codegen.code();
    assert_eq!(
        code,
        &vec![
            0x48, 0x29, 0xd8, // sub rax, rbx
            0x48, 0x81, 0xe8, 0x34, 0x12, 0x00, 0x00, // sub rax, 0x1234
            0x49, 0x29, 0xef, // sub r15, rbp
            0x49, 0x81, 0xe8, 0x48, 0x47, 0x46, 0x45, // sub r8, 0x45464748
        ]
    );
}

#[test]
fn test_x86_64_codegen_sbb() {
    let mut codegen = X86Asm::new();
    codegen.sbb(Reg(Rax), Reg(Rbx));
    codegen.sbb(Reg(Rax), Imm64(0x1234));
    codegen.sbb(Reg(R15), Reg(Rbp));
    codegen.sbb(Reg(R8), Imm64(0x45464748));

    let code = codegen.code();
    assert_eq!(
        code,
        &vec![
            0x48, 0x19, 0xd8, // sbb rax, rbx
            0x48, 0x81, 0xd8, 0x34, 0x12, 0x00, 0x00, // sbb rax, 0x1234
            0x49, 0x19, 0xef, // sbb r15, rbp
            0x49, 0x81, 0xd8, 0x48, 0x47, 0x46, 0x45, // sbb r8, 0x45464748
        ]
    );
}

#[test]
fn test_x86_64_codegen_add() {
    let mut codegen = X86Asm::new();
    codegen.add(Reg(Rax), Reg(Rbx));
    codegen.add(Reg(Rax), Imm64(0x1234));
    codegen.add(Reg(R15), Reg(Rbp));
    codegen.add(Reg(R8), Imm64(0x45464748));

    let code = codegen.code();
    assert_eq!(
        code,
        &vec![
            0x48, 0x01, 0xd8, // add rax, rbx
            0x48, 0x81, 0xc0, 0x34, 0x12, 0x00, 0x00, // add rax, 0x1234
            0x49, 0x01, 0xef, // add r15, rbp
            0x49, 0x81, 0xc0, 0x48, 0x47, 0x46, 0x45, // add r8, 0x45464748
        ]
    );
}

#[test]
fn test_x86_64_codegen_call() {
    let mut codegen = X86Asm::new();
    codegen.call(Reg(Rax));
    codegen.call(Reg(R15));

    let code = codegen.code();
    assert_eq!(
        code,
        &vec![
            0x48, 0xff, 0xd0, // call rax
            0x49, 0xff, 0xd7, // call r15
        ]
    );
}

#[test]
fn test_x86_64_codegen_ret() {
    let mut codegen = X86Asm::new();
    codegen.ret();

    let code = codegen.code();
    assert_eq!(code, &vec![0xc3]); // ret
}

#[test]
fn test_x86_64_codegen_mov() {
    let mut codegen = X86Asm::new();
    codegen.mov(Reg(Rax), Imm64(0x123456789abcdef0));
    codegen.mov(Reg(Rax), Reg(Rbx));
    codegen.mov(MemDisp(Rax, 0x1337), Reg(Rbx));
    codegen.mov(Reg(Rax), MemDisp(Rbx, 0x41414141));
    codegen.mov(Reg(R8), Imm64(0x1234));
    codegen.mov(Reg(Rsp), Reg(R15));
    codegen.mov(MemDisp(R15, 0x12345678), Imm64(0x41424344));

    let code = codegen.code();
    assert_eq!(
        code,
        &vec![
            0x48, 0xb8, 0xf0, 0xde, 0xbc, 0x9a, 0x78, 0x56, 0x34, 0x12, // mov rax, 0x1234
            0x48, 0x89, 0xd8, // mov rax, rbx
            0x48, 0x89, 0x98, 0x37, 0x13, 0x00, 0x00, // mov [rax], rbx
            0x48, 0x8b, 0x83, 0x41, 0x41, 0x41, 0x41, // mov rbx, [rax]
            0x49, 0xb8, 0x34, 0x12, 0x00, 0x00, 0x00, 0x00, 0x00, 0x00, // mov r8, 0x1234
            0x4c, 0x89, 0xfc, // mov rsp, r15
            0x49, 0xc7, 0x87, 0x78, 0x56, 0x34, 0x12, 0x44, 0x43, 0x42,
            0x41, // mov [r15], 0x41424344
        ]
    );
}

#[test]
fn test_x86_64_codegen_push() {
    let mut codegen = X86Asm::new();
    codegen.push(Reg(Rax));
    codegen.push(Imm64(0x12345678));

    let code = codegen.code();
    assert_eq!(
        code,
        &vec![
            0x48, 0x50, // push rax
            0x68, 0x78, 0x56, 0x34, 0x12, // push 0x12345678
        ]
    );
}

#[test]
fn test_x86_64_codegen_pop() {
    let mut codegen = X86Asm::new();
    codegen.pop(Reg(Rax));

    let code = codegen.code();
    assert_eq!(code, &vec![0x48, 0x58]); // pop rax
}

#[test]
fn test_writer_little_endian() {
    let mut writer = math_evaluator::writer::Writer::new();
    writer.emit8(0xaa);
    writer.emit16(0x1122);
    writer.emit32(0x33445566);
    writer.emit64(0x0102030405060708);
    assert_eq!(
        writer.bytes(),
        &vec![
            0xaa, 0x22, 0x11, 0x66, 0x55, 0x44, 0x33, 0x08, 0x07, 0x06, 0x05, 0x04, 0x03, 0x02,
            0x01,
        ]
    );
}

#[test]
fn test_writer_patch_at_offset() {
    let mut writer = math_evaluator::writer::Writer::new();
    writer.emit32(0xdeadbeef);
    writer.emit8_at(1, 0x00);
    assert_eq!(writer.bytes(), &vec![0xef, 0x00, 0xad, 0xde]);
    let patch = [0x01, 0x02];
    writer.emit_at(2, &patch);
    assert_eq!(writer.bytes(), &vec![0xef, 0x00, 0x01, 0x02]);
}

#[test]
fn test_writer_emit_maybe() {
    let mut writer = math_evaluator::writer::Writer::new();
    let bytes = [Some(0x01), None, Some(0x02), None, None, Some(0x03)];
    writer.emit_maybe(&bytes);
    assert_eq!(writer.bytes(), &vec![0x01, 0x02, 0x03]);
}
