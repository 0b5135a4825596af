//! Byte-level checks: the buffer deterministically produces the
//! documented encoding for each emitted item.

use jitbridge::buffer::CodeBuffer;
use jitbridge::convention::emit_call;
use jitbridge::convention::emit_entry_prologue;
use jitbridge::convention::emit_exit_epilogue;
use jitbridge::convention::RetSource;
use jitbridge::isa::encode;
use jitbridge::isa::instr_len;
use jitbridge::isa::Instr;
use jitbridge::isa::Reg;

#[test]
fn encode_stack_adjustment() {
    assert_eq!(encode(&Instr::SubRsp(0x20)), vec![0x48, 0x83, 0xec, 0x20]);
    assert_eq!(encode(&Instr::AddRsp(0x48)), vec![0x48, 0x83, 0xc4, 0x48]);
}

#[test]
fn encode_stores_and_loads() {
    assert_eq!(
        encode(&Instr::Store { disp: 0x00, src: Reg::Rcx }),
        vec![0x48, 0x89, 0x4c, 0x24, 0x00]
    );
    assert_eq!(
        encode(&Instr::Store { disp: 0x38, src: Reg::R9 }),
        vec![0x4c, 0x89, 0x4c, 0x24, 0x38]
    );
    assert_eq!(
        encode(&Instr::Load { dst: Reg::Rax, disp: 0x18 }),
        vec![0x48, 0x8b, 0x44, 0x24, 0x18]
    );
    assert_eq!(
        encode(&Instr::Load { dst: Reg::R8, disp: 0x30 }),
        vec![0x4c, 0x8b, 0x44, 0x24, 0x30]
    );
}

#[test]
fn encode_moves_and_calls() {
    assert_eq!(
        encode(&Instr::MovImm { dst: Reg::Rax, imm: 0x1122334455667788 }),
        vec![0x48, 0xb8, 0x88, 0x77, 0x66, 0x55, 0x44, 0x33, 0x22, 0x11]
    );
    assert_eq!(
        encode(&Instr::MovImm { dst: Reg::R9, imm: 42 }),
        vec![0x49, 0xb9, 0x2a, 0x00, 0x00, 0x00, 0x00, 0x00, 0x00, 0x00]
    );
    // mov rax, rcx
    assert_eq!(
        encode(&Instr::MovReg { dst: Reg::Rax, src: Reg::Rcx }),
        vec![0x48, 0x89, 0xc8]
    );
    // mov rcx, r9
    assert_eq!(
        encode(&Instr::MovReg { dst: Reg::Rcx, src: Reg::R9 }),
        vec![0x4c, 0x89, 0xc9]
    );
    assert_eq!(
        encode(&Instr::Lea { dst: Reg::Rcx, label: 0 }),
        vec![0x48, 0x8d, 0x0d, 0x00, 0x00, 0x00, 0x00]
    );
    assert_eq!(encode(&Instr::CallRax), vec![0xff, 0xd0]);
    assert_eq!(encode(&Instr::Ret), vec![0xc3]);
    assert_eq!(encode(&Instr::Data(vec![1, 2, 3])), vec![1, 2, 3]);
}

#[test]
fn instr_len_matches_encoding() {
    let items = vec![
        Instr::SubRsp(0x20),
        Instr::Store { disp: 0x08, src: Reg::Rdx },
        Instr::Load { dst: Reg::R9, disp: 0x38 },
        Instr::MovImm { dst: Reg::Rdx, imm: 7 },
        Instr::MovReg { dst: Reg::R8, src: Reg::Rax },
        Instr::Lea { dst: Reg::Rax, label: 3 },
        Instr::CallRax,
        Instr::Ret,
        Instr::Data(vec![9, 9]),
    ];
    for i in items {
        assert_eq!(instr_len(&i), encode(&i).len());
    }
}

/// The round-trip byte contract: a fixed emitted sequence produces the
/// same known byte buffer, every time.
#[test]
fn fixed_sequence_round_trip() {
    let mut first: Vec<u8> = Vec::new();
    for _ in 0..2 {
        let mut ops = CodeBuffer::new();
        ops.emit(Instr::SubRsp(0x20)).unwrap();
        ops.emit(Instr::MovImm { dst: Reg::Rcx, imm: 0x0102030405060708 }).unwrap();
        ops.emit(Instr::MovReg { dst: Reg::Rdx, src: Reg::Rcx }).unwrap();
        ops.emit(Instr::AddRsp(0x20)).unwrap();
        ops.emit(Instr::Ret).unwrap();
        let bytes = ops.to_bytes();
        let expected = vec![
            0x48, 0x83, 0xec, 0x20, // sub rsp, 0x20
            0x48, 0xb9, 0x08, 0x07, 0x06, 0x05, 0x04, 0x03, 0x02, 0x01, // mov rcx, imm64
            0x48, 0x89, 0xca, // mov rdx, rcx
            0x48, 0x83, 0xc4, 0x20, // add rsp, 0x20
            0xc3, // ret
        ];
        assert_eq!(bytes, expected);
        if first.is_empty() {
            first = bytes;
        } else {
            assert_eq!(first, bytes);
        }
    }
}

/// The entry prologue persists the four argument registers to the
/// frame slots at 0x0, 0x8, 0x10, 0x18, in argument order.
#[test]
fn entry_prologue_bytes() {
    let mut ops = CodeBuffer::new();
    let start = emit_entry_prologue(&mut ops).unwrap();
    let _ = start;
    assert_eq!(
        ops.to_bytes(),
        vec![
            0x48, 0x83, 0xec, 0x20, // sub rsp, 0x20
            0x48, 0x89, 0x4c, 0x24, 0x00, // mov [rsp], rcx
            0x48, 0x89, 0x54, 0x24, 0x08, // mov [rsp+0x8], rdx
            0x4c, 0x89, 0x44, 0x24, 0x10, // mov [rsp+0x10], r8
            0x4c, 0x89, 0x4c, 0x24, 0x18, // mov [rsp+0x18], r9
        ]
    );
}

/// The call bridge saves the argument registers above the callee's
/// 32-byte shadow area, calls, and restores them; `rax` alone is left
/// carrying the callee's result.
#[test]
fn call_bridge_bytes() {
    let mut ops = CodeBuffer::new();
    emit_call(&mut ops, 0x1122334455667788, &Vec::new()).unwrap();
    let mut expected = vec![
        0x48, 0x83, 0xec, 0x48, // sub rsp, 0x48
        0x48, 0x89, 0x4c, 0x24, 0x20, // mov [rsp+0x20], rcx
        0x48, 0x89, 0x54, 0x24, 0x28, // mov [rsp+0x28], rdx
        0x4c, 0x89, 0x44, 0x24, 0x30, // mov [rsp+0x30], r8
        0x4c, 0x89, 0x4c, 0x24, 0x38, // mov [rsp+0x38], r9
        0x48, 0xb8, 0x88, 0x77, 0x66, 0x55, 0x44, 0x33, 0x22, 0x11, // mov rax, target
        0xff, 0xd0, // call rax
    ];
    expected.extend_from_slice(&[
        0x48, 0x8b, 0x4c, 0x24, 0x20, // mov rcx, [rsp+0x20]
        0x48, 0x8b, 0x54, 0x24, 0x28, // mov rdx, [rsp+0x28]
        0x4c, 0x8b, 0x44, 0x24, 0x30, // mov r8, [rsp+0x30]
        0x4c, 0x8b, 0x4c, 0x24, 0x38, // mov r9, [rsp+0x38]
        0x48, 0x83, 0xc4, 0x48, // add rsp, 0x48
    ]);
    assert_eq!(ops.to_bytes(), expected);
}

/// The exit epilogue mirrors the prologue's reservation byte for byte.
#[test]
fn exit_epilogue_bytes() {
    let mut ops = CodeBuffer::new();
    emit_exit_epilogue(&mut ops, RetSource::CalleeResult).unwrap();
    assert_eq!(ops.to_bytes(), vec![0x48, 0x83, 0xc4, 0x20, 0xc3]);

    let mut ops = CodeBuffer::new();
    emit_exit_epilogue(&mut ops, RetSource::Slot(0x18)).unwrap();
    assert_eq!(
        ops.to_bytes(),
        vec![
            0x48, 0x8b, 0x44, 0x24, 0x18, // mov rax, [rsp+0x18]
            0x48, 0x83, 0xc4, 0x20, // add rsp, 0x20
            0xc3, // ret
        ]
    );
}
