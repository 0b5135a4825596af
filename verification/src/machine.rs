//! A model of how the emitted instructions execute.
//!
//! [`MachineState`] holds the five modelled registers, the stack pointer
//! and the stack as a map from byte address to the 8-byte value stored
//! there. Every instruction but `call rax` is deterministic
//! ([`det_step`]); a `call rax` transfers control to foreign code, of
//! which the model assumes only what the calling convention grants it:
//! the callee may clobber every modelled (volatile) register and any
//! stack at or below its 32-byte shadow area, and must leave the stack
//! pointer and everything above the shadow area intact ([`call_step`]).
//! [`runs_to`] relates a state to every state an instruction sequence
//! can reach from it; the calling-convention laws are proved over that
//! relation, so they hold whatever a callee does.

use vstd::prelude::*;

use crate::isa::Instr;
use crate::isa::Reg;

verus! {

/// Width of the shadow area a caller owes its callee: the callee may
/// freely use the 32 bytes at the caller's stack pointer.
pub const SHADOW_BYTES: u8 = 0x20;

/// One machine state of the model: the modelled registers, the stack
/// pointer, the stack contents, and the addresses the labels of the
/// buffer resolved to.
pub ghost struct MachineState {
    /// Return register.
    pub rax: u64,
    /// Argument registers 0..3.
    pub rcx: u64,
    pub rdx: u64,
    pub r8: u64,
    pub r9: u64,
    /// Stack pointer, as an unbounded address.
    pub rsp: int,
    /// Stack memory: 8-byte values keyed by their byte address.
    pub mem: Map<int, u64>,
    /// Address each label of the finalized buffer resolved to.
    pub labels: Map<int, u64>,
}

/// Value of a modelled register.
pub open spec fn get_reg(s: MachineState, r: Reg) -> u64 {
    match r {
        Reg::Rax => s.rax,
        Reg::Rcx => s.rcx,
        Reg::Rdx => s.rdx,
        Reg::R8 => s.r8,
        Reg::R9 => s.r9,
    }
}

/// The state with one register replaced.
pub open spec fn set_reg(s: MachineState, r: Reg, v: u64) -> MachineState {
    match r {
        Reg::Rax => MachineState { rax: v, ..s },
        Reg::Rcx => MachineState { rcx: v, ..s },
        Reg::Rdx => MachineState { rdx: v, ..s },
        Reg::R8 => MachineState { r8: v, ..s },
        Reg::R9 => MachineState { r9: v, ..s },
    }
}

/// An instruction whose effect is a function of the state alone:
/// everything but a call into foreign code and embedded data.
pub open spec fn plain(i: Instr) -> bool {
    match i {
        Instr::CallRax => false,
        Instr::Data(_) => false,
        _ => true,
    }
}

/// Every instruction of the sequence is deterministic.
pub open spec fn all_plain(code: Seq<Instr>) -> bool {
    forall|k: int| 0 <= k < code.len() ==> plain(#[trigger] code[k])
}

/// Effect of one deterministic instruction.
pub open spec fn det_step(s: MachineState, i: Instr) -> MachineState {
    match i {
        Instr::SubRsp(n) => MachineState { rsp: s.rsp - n, ..s },
        Instr::AddRsp(n) => MachineState { rsp: s.rsp + n, ..s },
        Instr::Store { disp, src } => MachineState {
            mem: s.mem.insert(s.rsp + disp, get_reg(s, src)),
            ..s
        },
        Instr::Load { dst, disp } => set_reg(s, dst, s.mem[s.rsp + disp]),
        Instr::MovImm { dst, imm } => set_reg(s, dst, imm),
        Instr::MovReg { dst, src } => set_reg(s, dst, get_reg(s, src)),
        Instr::Lea { dst, label } => set_reg(s, dst, s.labels[label as int]),
        // `ret` pops the return address; control leaving the program is
        // not modelled beyond that.
        Instr::Ret => MachineState { rsp: s.rsp + 8, ..s },
        Instr::CallRax => s,
        Instr::Data(_) => s,
    }
}

/// The two stacks agree at address `a`: present in one exactly when
/// present in the other, and with the same value.
pub open spec fn mem_agree(m1: Map<int, u64>, m2: Map<int, u64>, a: int) -> bool {
    m1.contains_key(a) == m2.contains_key(a) && (m1.contains_key(a) ==> m1[a] == m2[a])
}

/// What the convention guarantees of a call into foreign code, and
/// nothing more: the callee returns with the stack pointer and the
/// label addresses intact and every stack slot above the caller's
/// 32-byte shadow area untouched. Every modelled register and all
/// stack at or below the shadow area may hold anything afterwards.
pub open spec fn call_step(pre: MachineState, post: MachineState) -> bool {
    &&& post.rsp == pre.rsp
    &&& post.labels == pre.labels
    &&& forall|a: int| a >= pre.rsp + SHADOW_BYTES ==> #[trigger] mem_agree(pre.mem, post.mem, a)
}

/// One-instruction transition relation.
pub open spec fn step(pre: MachineState, i: Instr, post: MachineState) -> bool {
    match i {
        Instr::CallRax => call_step(pre, post),
        // Embedded data is never executed; it has no successor state.
        Instr::Data(_) => false,
        _ => post == det_step(pre, i),
    }
}

/// `post` is reachable from `pre` by executing `code` in order.
pub open spec fn runs_to(pre: MachineState, code: Seq<Instr>, post: MachineState) -> bool
    decreases code.len(),
{
    if code.len() == 0 {
        post == pre
    } else {
        exists|mid: MachineState|
            #[trigger] step(pre, code[0], mid) && runs_to(mid, code.drop_first(), post)
    }
}

/// Unfold one step of a non-empty run: some successor of the first
/// instruction continues the run.
pub proof fn lemma_runs_to_head(pre: MachineState, code: Seq<Instr>, post: MachineState) -> (
    mid: MachineState)
    requires
        runs_to(pre, code, post),
        code.len() > 0,
    ensures
        step(pre, code[0], mid),
        runs_to(mid, code.drop_first(), post),
{
    choose|mid: MachineState|
        #[trigger] step(pre, code[0], mid) && runs_to(mid, code.drop_first(), post)
}

/// A run of a concatenation passes through an intermediate state:
/// the state after the first part, from which the second part runs.
pub proof fn lemma_runs_to_split(
    pre: MachineState,
    a: Seq<Instr>,
    b: Seq<Instr>,
    post: MachineState,
) -> (mid: MachineState)
    requires
        runs_to(pre, a + b, post),
    ensures
        runs_to(pre, a, mid),
        runs_to(mid, b, post),
    decreases a.len(),
{
    if a.len() == 0 {
        assert(a + b =~= b);
        pre
    } else {
        assert((a + b).len() > 0);
        let m1 = lemma_runs_to_head(pre, a + b, post);
        assert((a + b)[0] == a[0]);
        assert((a + b).drop_first() =~= a.drop_first() + b);
        let mid = lemma_runs_to_split(m1, a.drop_first(), b, post);
        assert(step(pre, a[0], m1) && runs_to(m1, a.drop_first(), mid));
        mid
    }
}

/// Result of running a deterministic sequence.
pub open spec fn det_run(s: MachineState, code: Seq<Instr>) -> MachineState
    decreases code.len(),
{
    if code.len() == 0 {
        s
    } else {
        det_run(det_step(s, code[0]), code.drop_first())
    }
}

/// A run of a deterministic sequence reaches exactly [`det_run`]'s
/// state.
pub proof fn lemma_runs_det(pre: MachineState, code: Seq<Instr>, post: MachineState)
    requires
        runs_to(pre, code, post),
        all_plain(code),
    ensures
        post == det_run(pre, code),
    decreases code.len(),
{
    if code.len() == 0 {
    } else {
        let m = lemma_runs_to_head(pre, code, post);
        assert(plain(code[0]));
        assert(m == det_step(pre, code[0]));
        assert(all_plain(code.drop_first())) by {
            assert(forall|k: int|
                0 <= k < code.drop_first().len() ==> code.drop_first()[k] == code[k + 1]);
        }
        lemma_runs_det(m, code.drop_first(), post);
    }
}

} // verus!
