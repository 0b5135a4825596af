//! The fixed calling convention: entry prologue, exit epilogue, and
//! the external-call bridge.
//!
//! The convention passes four integer arguments in `rcx`, `rdx`, `r8`,
//! `r9` (argument 0..3) and returns one value in `rax`. The entry
//! prologue reserves a 32-byte frame and persists the four argument
//! registers to its slots at offsets 0x0, 0x8, 0x10 and 0x18, so later
//! code can reload them after arbitrary external calls. The call
//! bridge reserves a 72-byte frame: a 32-byte shadow area the callee
//! owns, four 8-byte save slots above it, and 8 bytes that keep the
//! stack pointer 16-byte aligned at the call; it spills the argument
//! registers into the save slots, loads the target address, calls it,
//! and reloads the saved registers. The exit epilogue loads the return
//! value, releases the entry frame and returns.

use vstd::prelude::*;

use crate::buffer::CodeBuffer;
use crate::buffer::EncodeError;
use crate::buffer::MAX_CODE;
use crate::buffer::Offset;
use crate::buffer::lea_label_ok;
use crate::isa::Instr;
use crate::isa::Reg;
use crate::isa::instr_bytes;
use crate::isa::prog_bytes;

verus! {

/// Bytes of stack the entry prologue reserves: one 8-byte slot per
/// argument register.
pub const ENTRY_FRAME_BYTES: u8 = 0x20;

/// Bytes of stack the call bridge reserves: 32 bytes of shadow area
/// owed to the callee, 32 bytes of save slots, 8 bytes of alignment
/// padding.
pub const CALL_FRAME_BYTES: u8 = 0x48;

/// Offset of the first save slot inside the bridge frame: right above
/// the callee's shadow area, where the callee may not write.
pub const SAVE_AREA_OFFSET: u8 = 0x20;

/// The entry prologue: reserve the entry frame and persist the four
/// argument registers to its slots, in argument order.
pub open spec fn entry_prologue_code() -> Seq<Instr> {
    seq![
        Instr::SubRsp(0x20),
        Instr::Store { disp: 0x00, src: Reg::Rcx },
        Instr::Store { disp: 0x08, src: Reg::Rdx },
        Instr::Store { disp: 0x10, src: Reg::R8 },
        Instr::Store { disp: 0x18, src: Reg::R9 },
    ]
}

/// Where the exit epilogue takes the program's return value from.
#[derive(Clone, Copy, Debug, PartialEq, Eq, Structural)]
pub enum RetSource {
    /// Leave `rax` as the last external call left it.
    CalleeResult,
    /// Load a fixed constant.
    Constant(u64),
    /// Load an entry-frame slot (0x0, 0x8, 0x10 or 0x18 for argument
    /// 0..3 as persisted by the entry prologue).
    Slot(u8),
}

/// The instruction, if any, that places the return value in `rax`.
pub open spec fn ret_load_code(src: RetSource) -> Seq<Instr> {
    match src {
        RetSource::CalleeResult => Seq::empty(),
        RetSource::Constant(k) => seq![Instr::MovImm { dst: Reg::Rax, imm: k }],
        RetSource::Slot(d) => seq![Instr::Load { dst: Reg::Rax, disp: d }],
    }
}

/// The exit epilogue: place the return value, release the entry frame,
/// return. Must be emitted exactly once, as the program's final
/// instructions.
pub open spec fn exit_epilogue_code(src: RetSource) -> Seq<Instr> {
    ret_load_code(src) + seq![Instr::AddRsp(0x20), Instr::Ret]
}

/// The bridge's opening: reserve the bridge frame and spill the four
/// argument registers into the save slots above the shadow area.
pub open spec fn bridge_prologue_code() -> Seq<Instr> {
    seq![
        Instr::SubRsp(0x48),
        Instr::Store { disp: 0x20, src: Reg::Rcx },
        Instr::Store { disp: 0x28, src: Reg::Rdx },
        Instr::Store { disp: 0x30, src: Reg::R8 },
        Instr::Store { disp: 0x38, src: Reg::R9 },
    ]
}

/// The bridge's closing: reload the four argument registers from the
/// save slots and release the bridge frame. `rax` is deliberately not
/// restored: it carries the callee's result.
pub open spec fn bridge_epilogue_code() -> Seq<Instr> {
    seq![
        Instr::Load { dst: Reg::Rcx, disp: 0x20 },
        Instr::Load { dst: Reg::Rdx, disp: 0x28 },
        Instr::Load { dst: Reg::R8, disp: 0x30 },
        Instr::Load { dst: Reg::R9, disp: 0x38 },
        Instr::AddRsp(0x48),
    ]
}

/// An instruction the bridge accepts as argument setup: it touches
/// registers only, never the stack or the stack pointer, so the
/// bridge's save slots stay intact under it.
pub open spec fn reg_only(i: Instr) -> bool {
    match i {
        Instr::MovImm { .. } => true,
        Instr::MovReg { .. } => true,
        Instr::Lea { .. } => true,
        _ => false,
    }
}

/// Every setup instruction is register-only.
pub open spec fn all_reg_only(s: Seq<Instr>) -> bool {
    forall|k: int| 0 <= k < s.len() ==> reg_only(#[trigger] s[k])
}

/// Every `lea` in the setup names a label the buffer handed out.
pub open spec fn all_labels_ok(s: Seq<Instr>, nlabels: int) -> bool {
    forall|k: int| 0 <= k < s.len() ==> lea_label_ok(#[trigger] s[k], nlabels)
}

/// The wrapper's tail: load the target address into `rax`, call it,
/// and run the bridge epilogue.
pub open spec fn call_tail_code(target: u64) -> Seq<Instr> {
    seq![Instr::MovImm { dst: Reg::Rax, imm: target }, Instr::CallRax] + bridge_epilogue_code()
}

/// The whole call-site wrapper: bridge prologue, the producer's
/// argument setup, then the tail with the call itself.
pub open spec fn call_code(target: u64, setup: Seq<Instr>) -> Seq<Instr> {
    bridge_prologue_code() + setup + call_tail_code(target)
}

/// Concatenation encodes to the two encodings, concatenated.
pub proof fn lemma_prog_bytes_concat(a: Seq<Instr>, b: Seq<Instr>)
    ensures
        prog_bytes(a + b) == prog_bytes(a) + prog_bytes(b),
    decreases b.len(),
{
    if b.len() == 0 {
        assert(a + b =~= a);
        assert(prog_bytes(a) + prog_bytes(b) =~= prog_bytes(a));
    } else {
        assert((a + b).drop_last() =~= a + b.drop_last());
        lemma_prog_bytes_concat(a, b.drop_last());
        assert((a + b).last() == b.last());
        assert(prog_bytes(a) + prog_bytes(b.drop_last()) + instr_bytes(b.last()) =~= prog_bytes(a)
            + (prog_bytes(b.drop_last()) + instr_bytes(b.last())));
    }
}

/// A prefix never encodes to more bytes than the whole.
pub proof fn lemma_prog_bytes_take_le(s: Seq<Instr>, k: int)
    requires
        0 <= k <= s.len(),
    ensures
        prog_bytes(s.take(k)).len() <= prog_bytes(s).len(),
    decreases s.len() - k,
{
    if k == s.len() {
        assert(s.take(k) =~= s);
    } else {
        assert(s.take(k + 1).drop_last() =~= s.take(k));
        assert(s.take(k + 1).last() == s[k]);
        lemma_prog_bytes_take_le(s, k + 1);
    }
}

/// Byte sizes of the three fixed blocks.
pub proof fn lemma_block_sizes()
    ensures
        prog_bytes(entry_prologue_code()).len() == 24,
        prog_bytes(bridge_prologue_code()).len() == 24,
        prog_bytes(bridge_epilogue_code()).len() == 24,
{
    reveal_with_fuel(prog_bytes, 8);
    let p = entry_prologue_code();
    assert(p.drop_last() =~= seq![p[0], p[1], p[2], p[3]]);
    assert(seq![p[0], p[1], p[2], p[3]].drop_last() =~= seq![p[0], p[1], p[2]]);
    assert(seq![p[0], p[1], p[2]].drop_last() =~= seq![p[0], p[1]]);
    assert(seq![p[0], p[1]].drop_last() =~= seq![p[0]]);
    assert(seq![p[0]].drop_last() =~= Seq::<Instr>::empty());
    let q = bridge_prologue_code();
    assert(q.drop_last() =~= seq![q[0], q[1], q[2], q[3]]);
    assert(seq![q[0], q[1], q[2], q[3]].drop_last() =~= seq![q[0], q[1], q[2]]);
    assert(seq![q[0], q[1], q[2]].drop_last() =~= seq![q[0], q[1]]);
    assert(seq![q[0], q[1]].drop_last() =~= seq![q[0]]);
    assert(seq![q[0]].drop_last() =~= Seq::<Instr>::empty());
    let e = bridge_epilogue_code();
    assert(e.drop_last() =~= seq![e[0], e[1], e[2], e[3]]);
    assert(seq![e[0], e[1], e[2], e[3]].drop_last() =~= seq![e[0], e[1], e[2]]);
    assert(seq![e[0], e[1], e[2]].drop_last() =~= seq![e[0], e[1]]);
    assert(seq![e[0], e[1]].drop_last() =~= seq![e[0]]);
    assert(seq![e[0]].drop_last() =~= Seq::<Instr>::empty());
}

/// The call wrapper's size: its fixed parts take 60 bytes around the
/// setup's own encoding.
pub proof fn lemma_call_code_size(target: u64, setup: Seq<Instr>)
    ensures
        prog_bytes(call_code(target, setup)).len() == 60 + prog_bytes(setup).len(),
{
    lemma_block_sizes();
    lemma_call_tail_size(target);
    lemma_prog_bytes_concat(bridge_prologue_code(), setup);
    lemma_prog_bytes_concat(bridge_prologue_code() + setup, call_tail_code(target));
}

/// The wrapper's tail takes 36 bytes.
pub proof fn lemma_call_tail_size(target: u64)
    ensures
        prog_bytes(call_tail_code(target)).len() == 36,
{
    reveal_with_fuel(prog_bytes, 8);
    lemma_block_sizes();
    let mid = seq![Instr::MovImm { dst: Reg::Rax, imm: target }, Instr::CallRax];
    assert(mid.drop_last() =~= seq![mid[0]]);
    assert(seq![mid[0]].drop_last() =~= Seq::<Instr>::empty());
    assert(prog_bytes(mid).len() == 12);
    lemma_prog_bytes_concat(mid, bridge_epilogue_code());
}

/// Emit one item that is known to fit and to name only handed-out
/// labels.
fn emit_fits(buf: &mut CodeBuffer, i: Instr)
    requires
        old(buf).wf(),
        lea_label_ok(i, old(buf).labels_view().len() as int),
        old(buf).bytes_view().len() + instr_bytes(i).len() <= MAX_CODE,
    ensures
        final(buf).wf(),
        final(buf).code_view() == old(buf).code_view().push(i),
        final(buf).bytes_view() == old(buf).bytes_view() + instr_bytes(i),
        final(buf).labels_view() == old(buf).labels_view(),
{
    let r = buf.emit(i);
    proof {
        if r is Err {
            assert(false);
        }
    }
}


/// Emit the bridge's opening block.
fn emit_bridge_prologue(buf: &mut CodeBuffer)
    requires
        old(buf).wf(),
        old(buf).bytes_view().len() + 24 <= MAX_CODE,
    ensures
        final(buf).wf(),
        final(buf).code_view() == old(buf).code_view() + bridge_prologue_code(),
        final(buf).bytes_view() == old(buf).bytes_view() + prog_bytes(bridge_prologue_code()),
        final(buf).labels_view() == old(buf).labels_view(),
{
    proof {
        lemma_block_sizes();
    }
    let ghost pre = *buf;
    emit_fits(buf, Instr::SubRsp(0x48));
    emit_fits(buf, Instr::Store { disp: 0x20, src: Reg::Rcx });
    emit_fits(buf, Instr::Store { disp: 0x28, src: Reg::Rdx });
    emit_fits(buf, Instr::Store { disp: 0x30, src: Reg::R8 });
    emit_fits(buf, Instr::Store { disp: 0x38, src: Reg::R9 });
    proof {
        reveal_with_fuel(prog_bytes, 8);
        let q = bridge_prologue_code();
        assert(q.drop_last() =~= seq![q[0], q[1], q[2], q[3]]);
        assert(seq![q[0], q[1], q[2], q[3]].drop_last() =~= seq![q[0], q[1], q[2]]);
        assert(seq![q[0], q[1], q[2]].drop_last() =~= seq![q[0], q[1]]);
        assert(seq![q[0], q[1]].drop_last() =~= seq![q[0]]);
        assert(seq![q[0]].drop_last() =~= Seq::<Instr>::empty());
        assert(buf.code_view() =~= pre.code_view() + q);
        assert(buf.bytes_view() =~= pre.bytes_view() + prog_bytes(q));
    }
}

/// Emit the wrapper's tail: the target load, the call, the bridge
/// epilogue.
fn emit_call_tail(buf: &mut CodeBuffer, target: u64)
    requires
        old(buf).wf(),
        old(buf).bytes_view().len() + 36 <= MAX_CODE,
    ensures
        final(buf).wf(),
        final(buf).code_view() == old(buf).code_view() + call_tail_code(target),
        final(buf).bytes_view() == old(buf).bytes_view() + prog_bytes(call_tail_code(target)),
        final(buf).labels_view() == old(buf).labels_view(),
{
    proof {
        lemma_call_tail_size(target);
        lemma_block_sizes();
    }
    let ghost pre = *buf;
    emit_fits(buf, Instr::MovImm { dst: Reg::Rax, imm: target });
    emit_fits(buf, Instr::CallRax);
    emit_fits(buf, Instr::Load { dst: Reg::Rcx, disp: 0x20 });
    emit_fits(buf, Instr::Load { dst: Reg::Rdx, disp: 0x28 });
    emit_fits(buf, Instr::Load { dst: Reg::R8, disp: 0x30 });
    emit_fits(buf, Instr::Load { dst: Reg::R9, disp: 0x38 });
    emit_fits(buf, Instr::AddRsp(0x48));
    proof {
        reveal_with_fuel(prog_bytes, 8);
        let e = bridge_epilogue_code();
        assert(e.drop_last() =~= seq![e[0], e[1], e[2], e[3]]);
        assert(seq![e[0], e[1], e[2], e[3]].drop_last() =~= seq![e[0], e[1], e[2]]);
        assert(seq![e[0], e[1], e[2]].drop_last() =~= seq![e[0], e[1]]);
        assert(seq![e[0], e[1]].drop_last() =~= seq![e[0]]);
        assert(seq![e[0]].drop_last() =~= Seq::<Instr>::empty());
        let mid = seq![Instr::MovImm { dst: Reg::Rax, imm: target }, Instr::CallRax];
        assert(mid.drop_last() =~= seq![mid[0]]);
        assert(seq![mid[0]].drop_last() =~= Seq::<Instr>::empty());
        lemma_prog_bytes_concat(mid, e);
        assert(buf.code_view() =~= pre.code_view() + call_tail_code(target));
        assert(buf.bytes_view() =~= pre.bytes_view() + prog_bytes(call_tail_code(target)));
    }
}

/// Emit the entry prologue and return the program's true entry offset:
/// the code that follows may assume the four arguments sit both in
/// their registers and in the entry-frame slots. Fails exactly when
/// the prologue's 24 bytes would not fit; a failed emit leaves the
/// buffer unchanged.
pub fn emit_entry_prologue(buf: &mut CodeBuffer) -> (r: Result<Offset, EncodeError>)
    requires
        old(buf).wf(),
    ensures
        final(buf).wf(),
        match r {
            Ok(entry) => {
                &&& entry.pos() == old(buf).bytes_view().len()
                &&& old(buf).bytes_view().len() + 24 <= MAX_CODE
                &&& final(buf).code_view() == old(buf).code_view() + entry_prologue_code()
                &&& final(buf).bytes_view() == old(buf).bytes_view() + prog_bytes(
                    entry_prologue_code(),
                )
                &&& final(buf).labels_view() == old(buf).labels_view()
            },
            Err(e) => {
                &&& *final(buf) == *old(buf)
                &&& e == EncodeError::BufferFull
                &&& old(buf).bytes_view().len() + 24 > MAX_CODE
            },
        },
{
    proof {
        lemma_block_sizes();
    }
    if buf.size() > MAX_CODE - 24 {
        return Err(EncodeError::BufferFull);
    }
    let entry = buf.current_offset();
    let ghost pre = *buf;
    emit_fits(buf, Instr::SubRsp(0x20));
    emit_fits(buf, Instr::Store { disp: 0x00, src: Reg::Rcx });
    emit_fits(buf, Instr::Store { disp: 0x08, src: Reg::Rdx });
    emit_fits(buf, Instr::Store { disp: 0x10, src: Reg::R8 });
    emit_fits(buf, Instr::Store { disp: 0x18, src: Reg::R9 });
    proof {
        reveal_with_fuel(prog_bytes, 8);
        let p = entry_prologue_code();
        assert(p.drop_last() =~= seq![p[0], p[1], p[2], p[3]]);
        assert(seq![p[0], p[1], p[2], p[3]].drop_last() =~= seq![p[0], p[1], p[2]]);
        assert(seq![p[0], p[1], p[2]].drop_last() =~= seq![p[0], p[1]]);
        assert(seq![p[0], p[1]].drop_last() =~= seq![p[0]]);
        assert(seq![p[0]].drop_last() =~= Seq::<Instr>::empty());
        assert(buf.code_view() =~= pre.code_view() + p);
        assert(buf.bytes_view() =~= pre.bytes_view() + prog_bytes(p));
    }
    Ok(entry)
}

/// Emit the exit epilogue: place the return value as `src` says,
/// release the entry frame, return. Fails exactly when it would not
/// fit; a failed emit leaves the buffer unchanged.
pub fn emit_exit_epilogue(buf: &mut CodeBuffer, src: RetSource) -> (r: Result<(), EncodeError>)
    requires
        old(buf).wf(),
    ensures
        final(buf).wf(),
        match r {
            Ok(()) => {
                &&& old(buf).bytes_view().len() + prog_bytes(exit_epilogue_code(src)).len()
                    <= MAX_CODE
                &&& final(buf).code_view() == old(buf).code_view() + exit_epilogue_code(src)
                &&& final(buf).bytes_view() == old(buf).bytes_view() + prog_bytes(
                    exit_epilogue_code(src),
                )
                &&& final(buf).labels_view() == old(buf).labels_view()
            },
            Err(e) => {
                &&& *final(buf) == *old(buf)
                &&& e == EncodeError::BufferFull
                &&& old(buf).bytes_view().len() + prog_bytes(exit_epilogue_code(src)).len()
                    > MAX_CODE
            },
        },
{
    let ghost ec = exit_epilogue_code(src);
    proof {
        reveal_with_fuel(prog_bytes, 8);
        assert(ec.drop_last() =~= ret_load_code(src).push(Instr::AddRsp(0x20)));
        assert(ret_load_code(src).push(Instr::AddRsp(0x20)).drop_last() =~= ret_load_code(src));
        if src matches RetSource::Constant(k) {
            assert(ret_load_code(src).drop_last() =~= Seq::<Instr>::empty());
        }
        if src matches RetSource::Slot(d) {
            assert(ret_load_code(src).drop_last() =~= Seq::<Instr>::empty());
        }
    }
    let head: usize = match src {
        RetSource::CalleeResult => 0,
        RetSource::Constant(_) => 10,
        RetSource::Slot(_) => 5,
    };
    assert(prog_bytes(ec).len() == head + 5);
    if buf.size() > MAX_CODE - (head + 5) {
        return Err(EncodeError::BufferFull);
    }
    let ghost pre = *buf;
    match src {
        RetSource::CalleeResult => {},
        RetSource::Constant(k) => {
            emit_fits(buf, Instr::MovImm { dst: Reg::Rax, imm: k });
        },
        RetSource::Slot(d) => {
            emit_fits(buf, Instr::Load { dst: Reg::Rax, disp: d });
        },
    }
    emit_fits(buf, Instr::AddRsp(0x20));
    emit_fits(buf, Instr::Ret);
    proof {
        assert(buf.code_view() =~= pre.code_view() + ec);
        assert(buf.bytes_view() =~= pre.bytes_view() + prog_bytes(ec));
    }
    Ok(())
}

/// Emit a call-site wrapper around a call to `target`, a host-resident
/// function that must itself follow the four-register, one-result
/// convention. `setup` holds the producer's register-only argument
/// preparation, run after the argument registers are saved. On return
/// from the emitted code every argument register holds exactly the
/// value it held before the wrapper; only `rax` is clobbered, carrying
/// the callee's result. Fails exactly when some setup instruction is
/// not register-only, names a label the buffer never handed out, or
/// when the wrapper would not fit; a failed emit leaves the buffer
/// unchanged.
#[verifier::loop_isolation(false)]
#[verifier::rlimit(100)]
pub fn emit_call(buf: &mut CodeBuffer, target: u64, setup: &Vec<Instr>) -> (r: Result<
    (),
    EncodeError,
>)
    requires
        old(buf).wf(),
    ensures
        final(buf).wf(),
        match r {
            Ok(()) => {
                &&& all_reg_only(setup@)
                &&& all_labels_ok(setup@, old(buf).labels_view().len() as int)
                &&& old(buf).bytes_view().len() + prog_bytes(call_code(target, setup@)).len()
                    <= MAX_CODE
                &&& final(buf).code_view() == old(buf).code_view() + call_code(target, setup@)
                &&& final(buf).bytes_view() == old(buf).bytes_view() + prog_bytes(
                    call_code(target, setup@),
                )
                &&& final(buf).labels_view() == old(buf).labels_view()
            },
            Err(e) => {
                &&& *final(buf) == *old(buf)
                &&& !(all_reg_only(setup@) && all_labels_ok(
                    setup@,
                    old(buf).labels_view().len() as int,
                ) && old(buf).bytes_view().len() + prog_bytes(call_code(target, setup@)).len()
                    <= MAX_CODE)
                &&& (e == EncodeError::InvalidSetup <==> !all_reg_only(setup@))
                &&& (e == EncodeError::UnknownLabel <==> all_reg_only(setup@) && !all_labels_ok(
                    setup@,
                    old(buf).labels_view().len() as int,
                ))
                &&& (e == EncodeError::BufferFull <==> all_reg_only(setup@) && all_labels_ok(
                    setup@,
                    old(buf).labels_view().len() as int,
                ) && old(buf).bytes_view().len() + prog_bytes(call_code(target, setup@)).len()
                    > MAX_CODE)
            },
        },
{
    proof {
        lemma_call_code_size(target, setup@);
    }
    // Validate: register-only.
    let mut k: usize = 0;
    while k < setup.len()
        invariant
            k <= setup.len(),
            forall|j: int| 0 <= j < k ==> reg_only(#[trigger] setup@[j]),
        decreases setup.len() - k,
    {
        let ok = match &setup[k] {
            Instr::MovImm { .. } => true,
            Instr::MovReg { .. } => true,
            Instr::Lea { .. } => true,
            _ => false,
        };
        if !ok {
            return Err(EncodeError::InvalidSetup);
        }
        k = k + 1;
    }
    // Validate: every lea label was handed out.
    let mut k: usize = 0;
    while k < setup.len()
        invariant
            k <= setup.len(),
            all_reg_only(setup@),
            forall|j: int|
                0 <= j < k ==> lea_label_ok(#[trigger] setup@[j], buf.labels_view().len() as int),
        decreases setup.len() - k,
    {
        let ok = match &setup[k] {
            Instr::Lea { dst: _, label } => *label < buf.label_count(),
            _ => true,
        };
        if !ok {
            return Err(EncodeError::UnknownLabel);
        }
        k = k + 1;
    }
    // Measure the setup's encoding.
    let mut total: usize = 0;
    let mut k: usize = 0;
    while k < setup.len()
        invariant
            k <= setup.len(),
            all_reg_only(setup@),
            all_labels_ok(setup@, buf.labels_view().len() as int),
            total == prog_bytes(setup@.take(k as int)).len(),
            total <= MAX_CODE,
        decreases setup.len() - k,
    {
        proof {
            assert(setup@.take(k + 1).drop_last() =~= setup@.take(k as int));
            assert(setup@.take(k + 1).last() == setup@[k as int]);
            assert(reg_only(setup@[k as int]));
            assert(instr_bytes(setup@[k as int]).len() <= 10);
        }
        let n = crate::isa::instr_len(&setup[k]);
        if total + n > MAX_CODE {
            proof {
                lemma_prog_bytes_take_le(setup@, k + 1);
            }
            return Err(EncodeError::BufferFull);
        }
        total = total + n;
        k = k + 1;
    }
    proof {
        assert(setup@.take(setup@.len() as int) =~= setup@);
    }
    if buf.size() > MAX_CODE - 60 || buf.size() + 60 > MAX_CODE - total {
        return Err(EncodeError::BufferFull);
    }
    // Emit: bridge prologue.
    let ghost pre = *buf;
    proof {
        lemma_block_sizes();
    }
    emit_bridge_prologue(buf);
    // Emit: the producer's argument setup.
    let mut k: usize = 0;
    while k < setup.len()
        invariant
            k <= setup.len(),
            all_reg_only(setup@),
            all_labels_ok(setup@, pre.labels_view().len() as int),
            buf.wf(),
            buf.labels_view() == pre.labels_view(),
            buf.code_view() == pre.code_view() + bridge_prologue_code() + setup@.take(k as int),
            buf.bytes_view() == pre.bytes_view() + prog_bytes(bridge_prologue_code()) + prog_bytes(
                setup@.take(k as int),
            ),
            prog_bytes(setup@).len() <= MAX_CODE,
            pre.bytes_view().len() + 60 + prog_bytes(setup@).len() <= MAX_CODE,
        decreases setup.len() - k,
    {
        proof {
            assert(setup@.take(k + 1).drop_last() =~= setup@.take(k as int));
            assert(setup@.take(k + 1).last() == setup@[k as int]);
            lemma_prog_bytes_take_le(setup@, k + 1);
            assert(prog_bytes(setup@.take(k as int)).len() + instr_bytes(setup@[k as int]).len()
                == prog_bytes(setup@.take(k + 1)).len());
        }
        let i = clone_instr(&setup[k]);
        proof {
            assert(lea_label_ok(setup@[k as int], buf.labels_view().len() as int));
        }
        emit_fits(buf, i);
        proof {
            assert(buf.code_view() =~= pre.code_view() + bridge_prologue_code() + setup@.take(
                k + 1,
            ));
            assert(buf.bytes_view() =~= pre.bytes_view() + prog_bytes(bridge_prologue_code())
                + prog_bytes(setup@.take(k + 1)));
        }
        k = k + 1;
    }
    proof {
        assert(setup@.take(setup@.len() as int) =~= setup@);
    }
    // Emit: the wrapper's tail with the call itself.
    proof {
        lemma_call_tail_size(target);
    }
    emit_call_tail(buf, target);
    proof {
        assert(buf.code_view() =~= pre.code_view() + call_code(target, setup@));
        lemma_prog_bytes_concat(bridge_prologue_code(), setup@);
        lemma_prog_bytes_concat(bridge_prologue_code() + setup@, call_tail_code(target));
        assert(buf.bytes_view() =~= pre.bytes_view() + prog_bytes(call_code(target, setup@)));
    }
    Ok(())
}

/// A copy of one register-only instruction.
fn clone_instr(i: &Instr) -> (r: Instr)
    requires
        reg_only(*i),
    ensures
        r == *i,
{
    match i {
        Instr::MovImm { dst, imm } => Instr::MovImm { dst: *dst, imm: *imm },
        Instr::MovReg { dst, src } => Instr::MovReg { dst: *dst, src: *src },
        Instr::Lea { dst, label } => Instr::Lea { dst: *dst, label: *label },
        _ => {
            proof {
                assert(false);
            }
            Instr::Ret
        },
    }
}

} // verus!
