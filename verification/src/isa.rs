//! The instruction repertoire the emitter knows, and its byte encoding.
//!
//! Every instruction the calling-convention layer needs is a variant of
//! [`Instr`]; [`instr_bytes`] is the authoritative statement of the bytes
//! each one assembles to, and [`encode`] is proved to produce exactly
//! those bytes. A label-relative `lea` is encoded with a zero
//! displacement placeholder; the displacement is patched when the buffer
//! is finalized.

use vstd::prelude::*;

verus! {

/// The general-purpose registers the emitter uses: the four argument
/// registers of the fixed calling convention, in positional order, and
/// the return register.
#[derive(Clone, Copy, Debug, PartialEq, Eq, Structural)]
pub enum Reg {
    /// Return register.
    Rax,
    /// Argument 0.
    Rcx,
    /// Argument 1.
    Rdx,
    /// Argument 2.
    R8,
    /// Argument 3.
    R9,
}

/// Hardware register number.
pub open spec fn reg_num(r: Reg) -> u8 {
    match r {
        Reg::Rax => 0,
        Reg::Rcx => 1,
        Reg::Rdx => 2,
        Reg::R8 => 8,
        Reg::R9 => 9,
    }
}

/// Low three bits of the register number, as placed in a ModRM field.
pub open spec fn low3(r: Reg) -> u8 {
    if reg_num(r) >= 8 {
        (reg_num(r) - 8) as u8
    } else {
        reg_num(r)
    }
}

/// REX prefix (64-bit operand) for a register in the ModRM `reg` field.
pub open spec fn rex_reg(r: Reg) -> u8 {
    if reg_num(r) >= 8 {
        0x4c
    } else {
        0x48
    }
}

/// REX prefix (64-bit operand) for a register in the ModRM `r/m` field
/// or in an opcode-embedded register field.
pub open spec fn rex_rm(r: Reg) -> u8 {
    if reg_num(r) >= 8 {
        0x49
    } else {
        0x48
    }
}

/// REX prefix for a register-to-register form: `src` in the `reg`
/// field, `dst` in the `r/m` field.
pub open spec fn rex_pair(dst: Reg, src: Reg) -> u8 {
    (0x48 + (if reg_num(src) >= 8 {
        4int
    } else {
        0int
    }) + (if reg_num(dst) >= 8 {
        1int
    } else {
        0int
    })) as u8
}

/// One emitted item: an instruction of the fixed repertoire, or a run
/// of raw data bytes embedded in the buffer.
#[derive(Debug)]
pub enum Instr {
    /// `sub rsp, imm8` — reserve stack space.
    SubRsp(u8),
    /// `add rsp, imm8` — release stack space.
    AddRsp(u8),
    /// `mov [rsp + disp8], src` — spill a register to the frame.
    Store { disp: u8, src: Reg },
    /// `mov dst, [rsp + disp8]` — reload a register from the frame.
    Load { dst: Reg, disp: u8 },
    /// `mov dst, imm64` — load a 64-bit immediate.
    MovImm { dst: Reg, imm: u64 },
    /// `mov dst, src` — copy a register.
    MovReg { dst: Reg, src: Reg },
    /// `lea dst, [rip + disp32]` referring to a label; the displacement
    /// is a placeholder until finalization resolves the label.
    Lea { dst: Reg, label: usize },
    /// `call rax` — call the address held in the return register.
    CallRax,
    /// `ret` — return to the caller.
    Ret,
    /// Raw bytes embedded in the buffer (e.g. string constants); never
    /// executed.
    Data(Vec<u8>),
}

/// Little-endian bytes of a 64-bit immediate.
pub open spec fn u64_le_bytes(x: u64) -> Seq<u8> {
    seq![
        (x % 256) as u8,
        ((x / 0x100) % 256) as u8,
        ((x / 0x10000) % 256) as u8,
        ((x / 0x1000000) % 256) as u8,
        ((x / 0x100000000) % 256) as u8,
        ((x / 0x10000000000) % 256) as u8,
        ((x / 0x1000000000000) % 256) as u8,
        ((x / 0x100000000000000) % 256) as u8,
    ]
}

/// Little-endian bytes of a 32-bit displacement.
pub open spec fn u32_le_bytes(x: u32) -> Seq<u8> {
    seq![
        (x % 256) as u8,
        ((x / 0x100) % 256) as u8,
        ((x / 0x10000) % 256) as u8,
        ((x / 0x1000000) % 256) as u8,
    ]
}

/// The bytes an item assembles to. This is the byte contract of the
/// whole emitter: a buffer's contents are exactly the concatenation of
/// `instr_bytes` over the items emitted into it.
pub open spec fn instr_bytes(i: Instr) -> Seq<u8> {
    match i {
        Instr::SubRsp(n) => seq![0x48u8, 0x83u8, 0xecu8, n],
        Instr::AddRsp(n) => seq![0x48u8, 0x83u8, 0xc4u8, n],
        Instr::Store { disp, src } => seq![
            rex_reg(src),
            0x89u8,
            (0x44 + low3(src) * 8) as u8,
            0x24u8,
            disp,
        ],
        Instr::Load { dst, disp } => seq![
            rex_reg(dst),
            0x8bu8,
            (0x44 + low3(dst) * 8) as u8,
            0x24u8,
            disp,
        ],
        Instr::MovImm { dst, imm } => seq![rex_rm(dst), (0xb8 + low3(dst)) as u8]
            + u64_le_bytes(imm),
        Instr::MovReg { dst, src } => seq![
            rex_pair(dst, src),
            0x89u8,
            (0xc0 + low3(src) * 8 + low3(dst)) as u8,
        ],
        Instr::Lea { dst, label } => seq![
            rex_reg(dst),
            0x8du8,
            (0x05 + low3(dst) * 8) as u8,
            0u8,
            0u8,
            0u8,
            0u8,
        ],
        Instr::CallRax => seq![0xffu8, 0xd0u8],
        Instr::Ret => seq![0xc3u8],
        Instr::Data(v) => v@,
    }
}

/// Concatenated encoding of a whole item sequence.
pub open spec fn prog_bytes(code: Seq<Instr>) -> Seq<u8>
    decreases code.len(),
{
    if code.len() == 0 {
        Seq::empty()
    } else {
        prog_bytes(code.drop_last()) + instr_bytes(code.last())
    }
}

/// Appending one item appends exactly its encoding.
pub proof fn lemma_prog_bytes_push(code: Seq<Instr>, i: Instr)
    ensures
        prog_bytes(code.push(i)) == prog_bytes(code) + instr_bytes(i),
{
    assert(code.push(i).drop_last() =~= code);
    assert(code.push(i).last() == i);
}

/// Length in bytes of one item's encoding.
pub fn instr_len(i: &Instr) -> (n: usize)
    ensures
        n == instr_bytes(*i).len(),
{
    match i {
        Instr::SubRsp(_) => 4,
        Instr::AddRsp(_) => 4,
        Instr::Store { .. } => 5,
        Instr::Load { .. } => 5,
        Instr::MovImm { .. } => 10,
        Instr::MovReg { .. } => 3,
        Instr::Lea { .. } => 7,
        Instr::CallRax => 2,
        Instr::Ret => 1,
        Instr::Data(v) => v.len(),
    }
}

fn reg_num_x(r: Reg) -> (n: u8)
    ensures
        n == reg_num(r),
{
    match r {
        Reg::Rax => 0,
        Reg::Rcx => 1,
        Reg::Rdx => 2,
        Reg::R8 => 8,
        Reg::R9 => 9,
    }
}

fn low3_x(r: Reg) -> (n: u8)
    ensures
        n == low3(r),
{
    let n = reg_num_x(r);
    if n >= 8 {
        n - 8
    } else {
        n
    }
}

fn push_u64_le(out: &mut Vec<u8>, x: u64)
    ensures
        final(out)@ == old(out)@ + u64_le_bytes(x),
{
    out.push((x % 256) as u8);
    out.push(((x / 0x100) % 256) as u8);
    out.push(((x / 0x10000) % 256) as u8);
    out.push(((x / 0x1000000) % 256) as u8);
    out.push(((x / 0x100000000) % 256) as u8);
    out.push(((x / 0x10000000000) % 256) as u8);
    out.push(((x / 0x1000000000000) % 256) as u8);
    out.push(((x / 0x100000000000000) % 256) as u8);
    assert(out@ =~= old(out)@ + u64_le_bytes(x));
}

/// Assemble one item to its bytes, exactly as [`instr_bytes`] states.
pub fn encode(i: &Instr) -> (out: Vec<u8>)
    ensures
        out@ == instr_bytes(*i),
{
    let mut out: Vec<u8> = Vec::new();
    match i {
        Instr::SubRsp(n) => {
            out.push(0x48);
            out.push(0x83);
            out.push(0xec);
            out.push(*n);
        },
        Instr::AddRsp(n) => {
            out.push(0x48);
            out.push(0x83);
            out.push(0xc4);
            out.push(*n);
        },
        Instr::Store { disp, src } => {
            let n = reg_num_x(*src);
            out.push(if n >= 8 { 0x4c } else { 0x48 });
            out.push(0x89);
            out.push(0x44 + low3_x(*src) * 8);
            out.push(0x24);
            out.push(*disp);
        },
        Instr::Load { dst, disp } => {
            let n = reg_num_x(*dst);
            out.push(if n >= 8 { 0x4c } else { 0x48 });
            out.push(0x8b);
            out.push(0x44 + low3_x(*dst) * 8);
            out.push(0x24);
            out.push(*disp);
        },
        Instr::MovImm { dst, imm } => {
            let n = reg_num_x(*dst);
            out.push(if n >= 8 { 0x49 } else { 0x48 });
            out.push(0xb8 + low3_x(*dst));
            push_u64_le(&mut out, *imm);
        },
        Instr::MovReg { dst, src } => {
            let ns = reg_num_x(*src);
            let nd = reg_num_x(*dst);
            out.push(
                0x48 + (if ns >= 8 { 4u8 } else { 0u8 }) + (if nd >= 8 { 1u8 } else { 0u8 }),
            );
            out.push(0x89);
            out.push(0xc0 + low3_x(*src) * 8 + low3_x(*dst));
        },
        Instr::Lea { dst, label: _ } => {
            let n = reg_num_x(*dst);
            out.push(if n >= 8 { 0x4c } else { 0x48 });
            out.push(0x8d);
            out.push(0x05 + low3_x(*dst) * 8);
            out.push(0);
            out.push(0);
            out.push(0);
            out.push(0);
        },
        Instr::CallRax => {
            out.push(0xff);
            out.push(0xd0);
        },
        Instr::Ret => {
            out.push(0xc3);
        },
        Instr::Data(v) => {
            let mut j: usize = 0;
            while j < v.len()
                invariant
                    j <= v.len(),
                    out@ == v@.take(j as int),
                decreases v.len() - j,
            {
                out.push(v[j]);
                assert(out@ =~= v@.take(j + 1 as int));
                j = j + 1;
            }
            assert(v@.take(v.len() as int) =~= v@);
        },
    }
    assert(out@ =~= instr_bytes(*i));
    out
}

} // verus!
