//! Label resolution: forward and backward references resolve to the
//! correct final offset at finalization; an undefined label fails
//! finalization with a structured error.

use jitbridge::buffer::CodeBuffer;
use jitbridge::buffer::EncodeError;
use jitbridge::isa::Instr;
use jitbridge::isa::Reg;
use jitbridge::program::FinalizeError;

#[test]
fn forward_reference_resolves() {
    let mut ops = CodeBuffer::new();
    let h = ops.new_label();
    let entry = ops.current_offset();
    // lea rax, [->h] at offset 0; its displacement field sits at 3..7.
    ops.emit(Instr::Lea { dst: Reg::Rax, label: h }).unwrap();
    ops.emit_bytes(vec![0xaa, 0xbb, 0xcc, 0xdd, 0xee]).unwrap();
    ops.define_label(h).unwrap(); // h = offset 12
    let program = ops.finalize(entry).unwrap();
    let bytes = program.code_bytes();
    assert_eq!(program.entry, 0);
    assert_eq!(bytes.len(), 12);
    assert_eq!(&bytes[0..3], &[0x48, 0x8d, 0x05]);
    // disp32 = target - next = 12 - 7 = 5
    assert_eq!(&bytes[3..7], &[0x05, 0x00, 0x00, 0x00]);
    // the embedded data is untouched
    assert_eq!(&bytes[7..12], &[0xaa, 0xbb, 0xcc, 0xdd, 0xee]);
}

#[test]
fn backward_reference_resolves() {
    let mut ops = CodeBuffer::new();
    ops.emit_bytes(vec![1, 2, 3]).unwrap();
    let h = ops.new_label();
    ops.define_label(h).unwrap(); // h = offset 3
    let entry = ops.current_offset();
    // lea rcx, [->h] at offset 3; field at 6..10, next = 10, disp = -7.
    ops.emit(Instr::Lea { dst: Reg::Rcx, label: h }).unwrap();
    let program = ops.finalize(entry).unwrap();
    let bytes = program.code_bytes();
    assert_eq!(program.entry, 3);
    assert_eq!(&bytes[6..10], &(-7i32).to_le_bytes());
}

#[test]
fn undefined_label_fails_finalize() {
    let mut ops = CodeBuffer::new();
    let h = ops.new_label();
    let entry = ops.current_offset();
    ops.emit(Instr::Lea { dst: Reg::Rax, label: h }).unwrap();
    let err = ops.finalize(entry).map(|_| ()).unwrap_err();
    assert_eq!(err, FinalizeError::UnresolvedLabel);
}

#[test]
fn unknown_label_fails_emit() {
    let mut ops = CodeBuffer::new();
    let err = ops.emit(Instr::Lea { dst: Reg::Rax, label: 0 }).unwrap_err();
    assert_eq!(err, EncodeError::UnknownLabel);
}

#[test]
fn unknown_label_fails_define() {
    let mut ops = CodeBuffer::new();
    assert_eq!(ops.define_label(3), Err(EncodeError::UnknownLabel));
}

#[test]
fn redefined_label_fails() {
    let mut ops = CodeBuffer::new();
    let h = ops.new_label();
    ops.define_label(h).unwrap();
    assert_eq!(ops.define_label(h), Err(EncodeError::RedefinedLabel));
}

#[test]
fn entry_out_of_bounds_fails_finalize() {
    let mut ops = CodeBuffer::new();
    ops.emit(Instr::Ret).unwrap();
    let mut other = CodeBuffer::new();
    other.emit(Instr::Ret).unwrap();
    other.emit(Instr::Ret).unwrap();
    let far = other.current_offset(); // offset 2, outside the 1-byte buffer
    let err = ops.finalize(far).map(|_| ()).unwrap_err();
    assert_eq!(err, FinalizeError::EntryOutOfBounds);
}

#[test]
fn empty_buffer_fails_finalize() {
    let ops = CodeBuffer::new();
    let entry = ops.current_offset();
    let err = ops.finalize(entry).map(|_| ()).unwrap_err();
    assert_eq!(err, FinalizeError::EntryOutOfBounds);
}
