//! Whole-program assemblies: the two end-to-end scenarios, built and
//! sealed, with their bytes pinned down.

use jitbridge::buffer::CodeBuffer;
use jitbridge::buffer::EncodeError;
use jitbridge::convention::emit_call;
use jitbridge::convention::emit_entry_prologue;
use jitbridge::convention::emit_exit_epilogue;
use jitbridge::convention::RetSource;
use jitbridge::isa::Instr;
use jitbridge::isa::Reg;

/// Entry prologue plus an epilogue that loads a fixed constant: the
/// chosen policy for a program with no body is an explicit,
/// caller-specified return constant, and these are its exact bytes.
#[test]
fn empty_program_with_constant_result() {
    let mut ops = CodeBuffer::new();
    let entry = emit_entry_prologue(&mut ops).unwrap();
    emit_exit_epilogue(&mut ops, RetSource::Constant(42)).unwrap();
    let program = ops.finalize(entry).unwrap();
    assert_eq!(program.entry, 0);
    let expected = vec![
        0x48, 0x83, 0xec, 0x20, // sub rsp, 0x20
        0x48, 0x89, 0x4c, 0x24, 0x00, // mov [rsp], rcx
        0x48, 0x89, 0x54, 0x24, 0x08, // mov [rsp+0x8], rdx
        0x4c, 0x89, 0x44, 0x24, 0x10, // mov [rsp+0x10], r8
        0x4c, 0x89, 0x4c, 0x24, 0x18, // mov [rsp+0x18], r9
        0x48, 0xb8, 0x2a, 0x00, 0x00, 0x00, 0x00, 0x00, 0x00, 0x00, // mov rax, 42
        0x48, 0x83, 0xc4, 0x20, // add rsp, 0x20
        0xc3, // ret
    ];
    assert_eq!(program.code_bytes(), expected);
}

/// A program that returns one of the persisted argument slots.
#[test]
fn slot_readback_program() {
    let mut ops = CodeBuffer::new();
    let entry = emit_entry_prologue(&mut ops).unwrap();
    emit_exit_epilogue(&mut ops, RetSource::Slot(0x18)).unwrap();
    let program = ops.finalize(entry).unwrap();
    let bytes = program.code_bytes();
    // mov rax, [rsp+0x18] right after the 24-byte prologue
    assert_eq!(&bytes[24..29], &[0x48, 0x8b, 0x44, 0x24, 0x18]);
}

/// The embedded-data scenario: a message with a terminating NUL at a
/// label, one callback called with the label's address, a second
/// called with the message length, and the program returning the
/// second callback's result untouched.
#[test]
fn embedded_message_scenario() {
    let message = b"Hello World!";
    let print_fn: u64 = 0x1000;
    let len_fn: u64 = 0x2000;

    let mut ops = CodeBuffer::new();
    let h = ops.new_label();
    ops.define_label(h).unwrap(); // h = offset 0
    let mut data = message.to_vec();
    data.push(0);
    ops.emit_bytes(data).unwrap(); // 13 bytes of data
    let entry = emit_entry_prologue(&mut ops).unwrap();
    emit_call(&mut ops, print_fn, &vec![Instr::Lea { dst: Reg::Rcx, label: h }]).unwrap();
    emit_call(
        &mut ops,
        len_fn,
        &vec![Instr::MovImm { dst: Reg::Rcx, imm: message.len() as u64 }],
    )
    .unwrap();
    emit_exit_epilogue(&mut ops, RetSource::CalleeResult).unwrap();
    let program = ops.finalize(entry).unwrap();

    assert_eq!(program.entry, 13);
    let bytes = program.code_bytes();
    // data at the label
    assert_eq!(&bytes[0..13], b"Hello World!\0");
    // the lea inside the first bridge: data(13) + prologue(24) +
    // bridge prologue(24) puts it at 61, its field at 64, next at 68;
    // it must reach back to offset 0.
    assert_eq!(&bytes[61..64], &[0x48, 0x8d, 0x0d]);
    assert_eq!(&bytes[64..68], &(-68i32).to_le_bytes());
    // the second bridge's argument setup loads the message length
    let second_setup = 13 + 24 + 60 + 7 + 24;
    assert_eq!(
        &bytes[second_setup..second_setup + 10],
        &[0x48, 0xb9, 0x0c, 0x00, 0x00, 0x00, 0x00, 0x00, 0x00, 0x00]
    );
    // the program ends by leaving rax as the last callee left it
    let n = bytes.len();
    assert_eq!(&bytes[n - 5..], &[0x48, 0x83, 0xc4, 0x20, 0xc3]);
}

/// The bridge refuses setup instructions that could disturb its save
/// slots, and labels the buffer never handed out.
#[test]
fn bridge_rejects_bad_setup() {
    let mut ops = CodeBuffer::new();
    let err = emit_call(&mut ops, 0x1000, &vec![Instr::Ret]).unwrap_err();
    assert_eq!(err, EncodeError::InvalidSetup);
    let err = emit_call(
        &mut ops,
        0x1000,
        &vec![Instr::Lea { dst: Reg::Rcx, label: 7 }],
    )
    .unwrap_err();
    assert_eq!(err, EncodeError::UnknownLabel);
    // a failed emit leaves the buffer untouched
    assert_eq!(ops.size(), 0);
}

/// Emitting past the buffer's capacity is refused, and the buffer is
/// left as it was.
#[test]
fn buffer_capacity_is_enforced() {
    let mut ops = CodeBuffer::new();
    ops.emit(Instr::Ret).unwrap();
    let err = ops
        .emit_bytes(vec![0u8; jitbridge::buffer::MAX_CODE])
        .unwrap_err();
    assert_eq!(err, EncodeError::BufferFull);
    assert_eq!(ops.size(), 1);
}
