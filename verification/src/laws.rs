//! The calling-convention guarantees, proved over the machine model.
//!
//! Each law quantifies over every state the model allows an emitted
//! block to reach — in particular over everything a called-back host
//! function may do within the convention — so the guarantees hold
//! whatever a callee does to the volatile registers or to its shadow
//! area.

use vstd::prelude::*;

use crate::convention::RetSource;
use crate::convention::all_reg_only;
use crate::convention::bridge_epilogue_code;
use crate::convention::bridge_prologue_code;
use crate::convention::call_code;
use crate::convention::call_tail_code;
use crate::convention::entry_prologue_code;
use crate::convention::exit_epilogue_code;
use crate::convention::reg_only;
use crate::isa::Instr;
use crate::isa::Reg;
use crate::machine::MachineState;
use crate::machine::all_plain;
use crate::machine::call_step;
use crate::machine::det_run;
use crate::machine::det_step;
use crate::machine::lemma_runs_det;
use crate::machine::lemma_runs_to_head;
use crate::machine::lemma_runs_to_split;
use crate::machine::mem_agree;
use crate::machine::plain;
use crate::machine::runs_to;
use crate::machine::step;
use crate::convention::CALL_FRAME_BYTES;
use crate::convention::SAVE_AREA_OFFSET;
use crate::machine::SHADOW_BYTES;
use vstd::arithmetic::div_mod::lemma_mod_sub_multiples_vanish;

verus! {

/// A run of a single instruction is one step.
pub proof fn lemma_runs_single(pre: MachineState, i: Instr, post: MachineState)
    requires
        runs_to(pre, seq![i], post),
    ensures
        step(pre, i, post),
{
    let m = lemma_runs_to_head(pre, seq![i], post);
    assert(seq![i].drop_first() =~= Seq::<Instr>::empty());
}

/// What the entry prologue does, exactly: the stack pointer drops by
/// the frame size and the four argument registers land in the frame's
/// slots; nothing else changes.
pub proof fn lemma_entry_prologue_run(pre: MachineState, post: MachineState)
    requires
        runs_to(pre, entry_prologue_code(), post),
    ensures
        post == (MachineState {
            rsp: pre.rsp - 0x20,
            mem: pre.mem.insert(pre.rsp - 0x20, pre.rcx).insert(pre.rsp - 0x18, pre.rdx).insert(
                pre.rsp - 0x10,
                pre.r8,
            ).insert(pre.rsp - 0x08, pre.r9),
            ..pre
        }),
{
    reveal_with_fuel(det_run, 8);
    let p = entry_prologue_code();
    assert(all_plain(p));
    lemma_runs_det(pre, p, post);
    assert(p.drop_first() =~= seq![p[1], p[2], p[3], p[4]]);
    assert(seq![p[1], p[2], p[3], p[4]].drop_first() =~= seq![p[2], p[3], p[4]]);
    assert(seq![p[2], p[3], p[4]].drop_first() =~= seq![p[3], p[4]]);
    assert(seq![p[3], p[4]].drop_first() =~= seq![p[4]]);
    assert(seq![p[4]].drop_first() =~= Seq::<Instr>::empty());
}

/// What the bridge's opening does, exactly: the stack pointer drops by
/// the bridge frame size and the four argument registers land in the
/// save slots above the shadow area.
pub proof fn lemma_bridge_prologue_run(pre: MachineState, post: MachineState)
    requires
        runs_to(pre, bridge_prologue_code(), post),
    ensures
        post == (MachineState {
            rsp: pre.rsp - 0x48,
            mem: pre.mem.insert(pre.rsp - 0x28, pre.rcx).insert(pre.rsp - 0x20, pre.rdx).insert(
                pre.rsp - 0x18,
                pre.r8,
            ).insert(pre.rsp - 0x10, pre.r9),
            ..pre
        }),
{
    reveal_with_fuel(det_run, 8);
    let p = bridge_prologue_code();
    assert(all_plain(p));
    lemma_runs_det(pre, p, post);
    assert(p.drop_first() =~= seq![p[1], p[2], p[3], p[4]]);
    assert(seq![p[1], p[2], p[3], p[4]].drop_first() =~= seq![p[2], p[3], p[4]]);
    assert(seq![p[2], p[3], p[4]].drop_first() =~= seq![p[3], p[4]]);
    assert(seq![p[3], p[4]].drop_first() =~= seq![p[4]]);
    assert(seq![p[4]].drop_first() =~= Seq::<Instr>::empty());
}

/// What the bridge's closing does, exactly: the four argument
/// registers are reloaded from the save slots and the bridge frame is
/// released; `rax` and the stack contents stay as they were.
pub proof fn lemma_bridge_epilogue_run(pre: MachineState, post: MachineState)
    requires
        runs_to(pre, bridge_epilogue_code(), post),
    ensures
        post == (MachineState {
            rcx: pre.mem[pre.rsp + 0x20],
            rdx: pre.mem[pre.rsp + 0x28],
            r8: pre.mem[pre.rsp + 0x30],
            r9: pre.mem[pre.rsp + 0x38],
            rsp: pre.rsp + 0x48,
            ..pre
        }),
{
    reveal_with_fuel(det_run, 8);
    let p = bridge_epilogue_code();
    assert(all_plain(p));
    lemma_runs_det(pre, p, post);
    assert(p.drop_first() =~= seq![p[1], p[2], p[3], p[4]]);
    assert(seq![p[1], p[2], p[3], p[4]].drop_first() =~= seq![p[2], p[3], p[4]]);
    assert(seq![p[2], p[3], p[4]].drop_first() =~= seq![p[3], p[4]]);
    assert(seq![p[3], p[4]].drop_first() =~= seq![p[4]]);
    assert(seq![p[4]].drop_first() =~= Seq::<Instr>::empty());
}

/// The value the exit epilogue places in the return register.
pub open spec fn ret_value(pre: MachineState, src: RetSource) -> u64 {
    match src {
        RetSource::CalleeResult => pre.rax,
        RetSource::Constant(k) => k,
        RetSource::Slot(d) => pre.mem[pre.rsp + d],
    }
}

/// What the exit epilogue does, exactly: the return register holds the
/// chosen value, the entry frame is released, and the return pops the
/// return address — the stack pointer ends 8 bytes above where the
/// frame began, exactly as the convention hands it back to the caller.
pub proof fn lemma_exit_epilogue_run(pre: MachineState, src: RetSource, post: MachineState)
    requires
        runs_to(pre, exit_epilogue_code(src), post),
    ensures
        post.rax == ret_value(pre, src),
        post.rcx == pre.rcx,
        post.rdx == pre.rdx,
        post.r8 == pre.r8,
        post.r9 == pre.r9,
        post.rsp == pre.rsp + 0x28,
        post.mem == pre.mem,
        post.labels == pre.labels,
{
    reveal_with_fuel(det_run, 8);
    let p = exit_epilogue_code(src);
    let tail = seq![Instr::AddRsp(0x20), Instr::Ret];
    assert(all_plain(p));
    lemma_runs_det(pre, p, post);
    match src {
        RetSource::CalleeResult => {
            assert(p =~= tail);
            assert(tail.drop_first() =~= seq![tail[1]]);
            assert(seq![tail[1]].drop_first() =~= Seq::<Instr>::empty());
        },
        RetSource::Constant(k) => {
            assert(p =~= seq![Instr::MovImm { dst: Reg::Rax, imm: k }, tail[0], tail[1]]);
            assert(p.drop_first() =~= seq![tail[0], tail[1]]);
            assert(seq![tail[0], tail[1]].drop_first() =~= seq![tail[1]]);
            assert(seq![tail[1]].drop_first() =~= Seq::<Instr>::empty());
        },
        RetSource::Slot(d) => {
            assert(p =~= seq![Instr::Load { dst: Reg::Rax, disp: d }, tail[0], tail[1]]);
            assert(p.drop_first() =~= seq![tail[0], tail[1]]);
            assert(seq![tail[0], tail[1]].drop_first() =~= seq![tail[1]]);
            assert(seq![tail[1]].drop_first() =~= Seq::<Instr>::empty());
        },
    }
}

/// Register-only setup instructions leave the stack pointer, the stack
/// and the label addresses untouched.
pub proof fn lemma_reg_only_run(pre: MachineState, code: Seq<Instr>, post: MachineState)
    requires
        runs_to(pre, code, post),
        all_reg_only(code),
    ensures
        post.rsp == pre.rsp,
        post.mem == pre.mem,
        post.labels == pre.labels,
    decreases code.len(),
{
    if code.len() == 0 {
    } else {
        let m = lemma_runs_to_head(pre, code, post);
        assert(reg_only(code[0]));
        assert(plain(code[0]));
        assert(m == det_step(pre, code[0]));
        assert(all_reg_only(code.drop_first())) by {
            assert(forall|k: int|
                0 <= k < code.drop_first().len() ==> code.drop_first()[k] == code[k + 1]);
        }
        lemma_reg_only_run(m, code.drop_first(), post);
    }
}

/// Argument persistence: after the entry prologue, each of the four
/// entry-frame slots holds the argument register it was assigned, and
/// a program that returns slot `d` returns exactly argument `d / 8`.
pub proof fn law_argument_persistence(pre: MachineState, d: u8, post: MachineState)
    requires
        runs_to(pre, entry_prologue_code() + exit_epilogue_code(RetSource::Slot(d)), post),
        d == 0x00 || d == 0x08 || d == 0x10 || d == 0x18,
    ensures
        post.rax == (if d == 0x00 {
            pre.rcx
        } else if d == 0x08 {
            pre.rdx
        } else if d == 0x10 {
            pre.r8
        } else {
            pre.r9
        }),
        post.rsp == pre.rsp + 8,
{
    let m = lemma_runs_to_split(
        pre,
        entry_prologue_code(),
        exit_epilogue_code(RetSource::Slot(d)),
        post,
    );
    lemma_entry_prologue_run(pre, m);
    lemma_exit_epilogue_run(m, RetSource::Slot(d), post);
}

/// A program that is nothing but entry prologue and exit epilogue
/// returns the caller-specified constant, and hands the stack pointer
/// back exactly where the convention expects it: the epilogue's
/// release mirrors the prologue's reservation byte for byte.
pub proof fn law_empty_program_returns_constant(pre: MachineState, k: u64, post: MachineState)
    requires
        runs_to(pre, entry_prologue_code() + exit_epilogue_code(RetSource::Constant(k)), post),
    ensures
        post.rax == k,
        post.rsp == pre.rsp + 8,
        post.labels == pre.labels,
{
    let m = lemma_runs_to_split(
        pre,
        entry_prologue_code(),
        exit_epilogue_code(RetSource::Constant(k)),
        post,
    );
    lemma_entry_prologue_run(pre, m);
    lemma_exit_epilogue_run(m, RetSource::Constant(k), post);
}

/// Register preservation across an external call — the bridge's
/// guarantee: whatever the callee did to the volatile registers and to
/// its shadow area, on return from the wrapper every argument register
/// holds exactly the value it held before the wrapper, the stack
/// pointer is back where it was, and every stack slot at or above it
/// is untouched. Only `rax` is excluded: it carries the callee's
/// result.
pub proof fn law_call_preserves_argument_registers(
    pre: MachineState,
    target: u64,
    setup: Seq<Instr>,
    post: MachineState,
)
    requires
        runs_to(pre, call_code(target, setup), post),
        all_reg_only(setup),
    ensures
        post.rcx == pre.rcx,
        post.rdx == pre.rdx,
        post.r8 == pre.r8,
        post.r9 == pre.r9,
        post.rsp == pre.rsp,
        post.labels == pre.labels,
        forall|a: int| a >= pre.rsp ==> mem_agree(pre.mem, post.mem, a),
{
    let mid = seq![Instr::MovImm { dst: Reg::Rax, imm: target }, Instr::CallRax];
    let m1 = lemma_runs_to_split(
        pre,
        bridge_prologue_code() + setup,
        call_tail_code(target),
        post,
    );
    let m0 = lemma_runs_to_split(pre, bridge_prologue_code(), setup, m1);
    lemma_bridge_prologue_run(pre, m0);
    lemma_reg_only_run(m0, setup, m1);
    let m2 = lemma_runs_to_split(m1, mid, bridge_epilogue_code(), post);
    assert(mid =~= seq![mid[0]] + seq![mid[1]]);
    let m1a = lemma_runs_to_split(m1, seq![mid[0]], seq![mid[1]], m2);
    lemma_runs_single(m1, mid[0], m1a);
    lemma_runs_single(m1a, mid[1], m2);
    assert(call_step(m1a, m2));
    lemma_bridge_epilogue_run(m2, post);
    let sp = pre.rsp - 0x48;
    assert(m1a.rsp == sp);
    assert(m1a.mem == m0.mem);
    assert(mem_agree(m1a.mem, m2.mem, pre.rsp - 0x28));
    assert(mem_agree(m1a.mem, m2.mem, pre.rsp - 0x20));
    assert(mem_agree(m1a.mem, m2.mem, pre.rsp - 0x18));
    assert(mem_agree(m1a.mem, m2.mem, pre.rsp - 0x10));
    assert(m2.mem[pre.rsp - 0x28] == pre.rcx);
    assert(m2.mem[pre.rsp - 0x20] == pre.rdx);
    assert(m2.mem[pre.rsp - 0x18] == pre.r8);
    assert(m2.mem[pre.rsp - 0x10] == pre.r9);
    assert forall|a: int| a >= pre.rsp implies mem_agree(pre.mem, post.mem, a) by {
        assert(mem_agree(m1a.mem, m2.mem, a));
        assert(mem_agree(pre.mem, m1a.mem, a));
    }
}

/// The concrete register-preservation scenario: a program that loads
/// (10, 20, 30, 40) into the four argument registers, calls out
/// through the bridge, and then returns argument 0, returns 10 —
/// whatever the callee did.
pub open spec fn preserved_arguments_code(target: u64) -> Seq<Instr> {
    entry_prologue_code() + seq![
        Instr::MovImm { dst: Reg::Rcx, imm: 10 },
        Instr::MovImm { dst: Reg::Rdx, imm: 20 },
        Instr::MovImm { dst: Reg::R8, imm: 30 },
        Instr::MovImm { dst: Reg::R9, imm: 40 },
    ] + call_code(target, Seq::empty()) + seq![Instr::MovReg { dst: Reg::Rax, src: Reg::Rcx }]
        + exit_epilogue_code(RetSource::CalleeResult)
}

pub proof fn law_register_preservation_scenario(
    pre: MachineState,
    target: u64,
    post: MachineState,
)
    requires
        runs_to(pre, preserved_arguments_code(target), post),
    ensures
        post.rax == 10,
{
    reveal_with_fuel(det_run, 8);
    let a = entry_prologue_code();
    let b = seq![
        Instr::MovImm { dst: Reg::Rcx, imm: 10u64 },
        Instr::MovImm { dst: Reg::Rdx, imm: 20u64 },
        Instr::MovImm { dst: Reg::R8, imm: 30u64 },
        Instr::MovImm { dst: Reg::R9, imm: 40u64 },
    ];
    let c = call_code(target, Seq::empty());
    let d = seq![Instr::MovReg { dst: Reg::Rax, src: Reg::Rcx }];
    let e = exit_epilogue_code(RetSource::CalleeResult);
    let s4 = lemma_runs_to_split(pre, a + b + c + d, e, post);
    let s3 = lemma_runs_to_split(pre, a + b + c, d, s4);
    let s2 = lemma_runs_to_split(pre, a + b, c, s3);
    let s1 = lemma_runs_to_split(pre, a, b, s2);
    lemma_entry_prologue_run(pre, s1);
    assert(all_plain(b));
    lemma_runs_det(s1, b, s2);
    assert(b.drop_first() =~= seq![b[1], b[2], b[3]]);
    assert(seq![b[1], b[2], b[3]].drop_first() =~= seq![b[2], b[3]]);
    assert(seq![b[2], b[3]].drop_first() =~= seq![b[3]]);
    assert(seq![b[3]].drop_first() =~= Seq::<Instr>::empty());
    assert(s2.rcx == 10);
    law_call_preserves_argument_registers(s2, target, Seq::empty(), s3);
    assert(s3.rcx == 10);
    lemma_runs_single(s3, d[0], s4);
    assert(s4.rax == 10);
    lemma_exit_epilogue_run(s4, RetSource::CalleeResult, post);
}

/// A program that embeds data at a label, calls a printing callback
/// with the label's address, then calls a second callback with the
/// data's length and returns whatever that callback returned.
pub open spec fn embedded_call_scenario_code(
    msg_label: usize,
    print_fn: u64,
    len_fn: u64,
    len: u64,
) -> Seq<Instr> {
    entry_prologue_code() + call_code(
        print_fn,
        seq![Instr::Lea { dst: Reg::Rcx, label: msg_label }],
    ) + call_code(len_fn, seq![Instr::MovImm { dst: Reg::Rcx, imm: len }])
        + exit_epilogue_code(RetSource::CalleeResult)
}

/// The end-to-end scenario law: in every run, the final external call
/// is entered with the data's length as argument 0 and the provided
/// callback as the target, and the program's return value is exactly
/// what that callback left in the return register.
pub proof fn law_scenario_returns_callee_result(
    pre: MachineState,
    msg_label: usize,
    print_fn: u64,
    len_fn: u64,
    len: u64,
    post: MachineState,
)
    requires
        runs_to(pre, embedded_call_scenario_code(msg_label, print_fn, len_fn, len), post),
    ensures
        exists|before_call: MachineState, after_call: MachineState|
            {
                &&& #[trigger] step(before_call, Instr::CallRax, after_call)
                &&& before_call.rcx == len
                &&& before_call.rax == len_fn
                &&& post.rax == after_call.rax
            },
{
    let a = entry_prologue_code();
    let c1 = call_code(print_fn, seq![Instr::Lea { dst: Reg::Rcx, label: msg_label }]);
    let s2 = seq![Instr::MovImm { dst: Reg::Rcx, imm: len }];
    let c2 = call_code(len_fn, s2);
    let e = exit_epilogue_code(RetSource::CalleeResult);
    let mid = seq![Instr::MovImm { dst: Reg::Rax, imm: len_fn }, Instr::CallRax];
    let m_e = lemma_runs_to_split(pre, a + c1 + c2, e, post);
    let m_c2 = lemma_runs_to_split(pre, a + c1, c2, m_e);
    let m_t = lemma_runs_to_split(m_c2, bridge_prologue_code() + s2, call_tail_code(len_fn), m_e);
    let m_s = lemma_runs_to_split(m_c2, bridge_prologue_code(), s2, m_t);
    lemma_runs_single(m_s, s2[0], m_t);
    assert(m_t.rcx == len);
    let m_epi = lemma_runs_to_split(m_t, mid, bridge_epilogue_code(), m_e);
    assert(mid =~= seq![mid[0]] + seq![mid[1]]);
    let m_bc = lemma_runs_to_split(m_t, seq![mid[0]], seq![mid[1]], m_epi);
    lemma_runs_single(m_t, mid[0], m_bc);
    assert(m_bc.rcx == len);
    assert(m_bc.rax == len_fn);
    lemma_runs_single(m_bc, mid[1], m_epi);
    assert(step(m_bc, Instr::CallRax, m_epi));
    lemma_bridge_epilogue_run(m_epi, m_e);
    lemma_exit_epilogue_run(m_e, RetSource::CalleeResult, post);
    assert(post.rax == m_epi.rax);
}

/// Entry-frame persistence across an external call: a program that
/// persists its arguments, makes a bridged external call, and returns
/// the entry-frame slot of argument 3 returns exactly what the caller
/// passed as argument 3 — the persisted slots live above the bridge
/// frame and the callee's shadow area, so no callee can reach them.
pub proof fn law_persisted_argument_survives_call(
    pre: MachineState,
    target: u64,
    setup: Seq<Instr>,
    post: MachineState,
)
    requires
        runs_to(
            pre,
            entry_prologue_code() + call_code(target, setup) + exit_epilogue_code(
                RetSource::Slot(0x18),
            ),
            post,
        ),
        all_reg_only(setup),
    ensures
        post.rax == pre.r9,
        post.rsp == pre.rsp + 8,
{
    let a = entry_prologue_code();
    let c = call_code(target, setup);
    let e = exit_epilogue_code(RetSource::Slot(0x18));
    let m2 = lemma_runs_to_split(pre, a + c, e, post);
    let m1 = lemma_runs_to_split(pre, a, c, m2);
    lemma_entry_prologue_run(pre, m1);
    law_call_preserves_argument_registers(m1, target, setup, m2);
    assert(m1.mem.contains_key(m1.rsp + 0x18));
    assert(m1.mem[m1.rsp + 0x18] == pre.r9);
    assert(mem_agree(m1.mem, m2.mem, m1.rsp + 0x18));
    lemma_exit_epilogue_run(m2, RetSource::Slot(0x18), post);
}

/// The bridge frame derived, not copied: a 32-byte shadow area owed to
/// the callee, 32 bytes of save slots, 8 bytes of padding; and with
/// the convention handing a program its stack pointer 8 modulo 16
/// (a 16-byte-aligned stack minus the pushed return address), the
/// stack pointer is exactly 16-byte aligned at every emitted call.
pub proof fn law_call_site_alignment(entry_rsp: int)
    requires
        entry_rsp % 16 == 8,
    ensures
        CALL_FRAME_BYTES == 0x20 + 0x20 + 8,
        SAVE_AREA_OFFSET == SHADOW_BYTES,
        (entry_rsp - 0x20) % 16 == 8,
        (entry_rsp - 0x20 - 0x48) % 16 == 0,
{
    lemma_mod_sub_multiples_vanish(entry_rsp, 16);
    assert((entry_rsp - 0x20) % 16 == 8) by (nonlinear_arith)
        requires
            entry_rsp % 16 == 8,
    ;
    assert((entry_rsp - 0x20 - 0x48) % 16 == 0) by (nonlinear_arith)
        requires
            entry_rsp % 16 == 8,
    ;
}

} // verus!
