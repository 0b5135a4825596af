//! Finalization: resolve every recorded label reference, then seal the
//! bytes into executable memory.
//!
//! The displacement patching is verified down to the byte; only the
//! step from a plain byte vector to page-protected executable memory
//! is delegated to the assembler runtime, behind [`make_executable`].
//! The final unsafe cast of the entry address to a callable function
//! stays outside this crate, with the embedding program.

use vstd::prelude::*;

use crate::buffer::CodeBuffer;
use crate::buffer::MAX_CODE;
use crate::buffer::Offset;
use crate::isa::Instr;
use crate::isa::u32_le_bytes;

verus! {

/// A finalization failure. Build-time errors are returned, never left
/// to crash the process.
#[derive(Clone, Copy, Debug, PartialEq, Eq, Structural)]
pub enum FinalizeError {
    /// The entry offset does not lie inside the buffer.
    EntryOutOfBounds,
    /// Some emitted instruction refers to a label that was never
    /// bound to an offset.
    UnresolvedLabel,
    /// The operating system refused executable memory.
    ExecutableMemory,
}

/// `dynasmrt::ExecutableBuffer` holds page-protected executable
/// memory and reads back as the byte slice written into it.
#[verifier::external_type_specification]
#[verifier::external_body]
pub struct ExExecutableBuffer(dynasmrt::ExecutableBuffer);

/// The bytes an executable buffer holds.
pub uninterp spec fn eb_bytes(b: dynasmrt::ExecutableBuffer) -> Seq<u8>;

/// Relies on dynasmrt's mmap wrappers: `MutableBuffer::new` maps fresh
/// writable memory of the requested size, `set_len` marks how much of
/// it is in use, its `DerefMut` exposes exactly that many bytes, and
/// `make_exec` remaps the pages executable without changing their
/// contents. The buffer that comes back therefore reads as exactly the
/// bytes written into it.
#[verifier::external_body]
pub(crate) fn make_executable(bytes: &Vec<u8>) -> (r: Result<dynasmrt::ExecutableBuffer, FinalizeError>)
    ensures
        r matches Ok(b) ==> eb_bytes(b) == bytes@,
{
    let mut m = match dynasmrt::mmap::MutableBuffer::new(bytes.len()) {
        Ok(m) => m,
        Err(_) => return Err(FinalizeError::ExecutableMemory),
    };
    m.set_len(bytes.len());
    m.copy_from_slice(bytes.as_slice());
    match m.make_exec() {
        Ok(b) => Ok(b),
        Err(_) => Err(FinalizeError::ExecutableMemory),
    }
}

/// Relies on `ExecutableBuffer`'s `Deref` to `[u8]`: reading the
/// sealed code bytes back out.
#[verifier::external_body]
fn buffer_bytes(b: &dynasmrt::ExecutableBuffer) -> (r: Vec<u8>)
    ensures
        r@ == eb_bytes(*b),
{
    b.to_vec()
}

/// The unsigned 32-bit two's-complement encoding of the displacement
/// from `next` (the address right after the displacement field) to
/// `target`. Meaningful whenever both lie within [`MAX_CODE`] of each
/// other, which the buffer's size bound guarantees.
pub open spec fn disp_enc(target: int, next: int) -> u32 {
    if target >= next {
        (target - next) as u32
    } else {
        (0x100000000 - (next - target)) as u32
    }
}

/// Four bytes of `b` starting at `at` replaced by `w`'s first four.
pub open spec fn patch4(b: Seq<u8>, at: int, w: Seq<u8>) -> Seq<u8> {
    b.update(at, w[0]).update(at + 1, w[1]).update(at + 2, w[2]).update(at + 3, w[3])
}

/// The offset a label resolved to (only meaningful once bound).
pub open spec fn resolved_label(ls: Seq<Option<usize>>, l: int) -> int {
    match ls[l] {
        Some(o) => o as int,
        None => 0,
    }
}

/// Every patch site's label is bound.
pub open spec fn all_labels_resolved(rs: Seq<(int, int)>, ls: Seq<Option<usize>>) -> bool {
    forall|k: int| 0 <= k < rs.len() ==> ls[(#[trigger] rs[k]).1] is Some
}

/// The buffer's bytes with every recorded displacement field patched
/// to reach its label's offset, RIP-relative to the byte after the
/// field.
pub open spec fn resolved_bytes(b: Seq<u8>, rs: Seq<(int, int)>, ls: Seq<Option<usize>>) -> Seq<
    u8,
>
    decreases rs.len(),
{
    if rs.len() == 0 {
        b
    } else {
        let r = rs.last();
        patch4(
            resolved_bytes(b, rs.drop_last(), ls),
            r.0,
            u32_le_bytes(disp_enc(resolved_label(ls, r.1), r.0 + 4)),
        )
    }
}

/// Every patch site, with its four bytes, lies inside a buffer of
/// `len` bytes.
pub open spec fn relocs_in_bounds(rs: Seq<(int, int)>, len: int) -> bool {
    forall|k: int| 0 <= k < rs.len() ==> 0 <= (#[trigger] rs[k]).0 && rs[k].0 + 4 <= len
}

/// Patching never changes the length.
pub proof fn lemma_resolved_len(b: Seq<u8>, rs: Seq<(int, int)>, ls: Seq<Option<usize>>)
    requires
        relocs_in_bounds(rs, b.len() as int),
    ensures
        resolved_bytes(b, rs, ls).len() == b.len(),
    decreases rs.len(),
{
    if rs.len() == 0 {
    } else {
        assert(forall|k: int|
            0 <= k < rs.drop_last().len() ==> rs.drop_last()[k] == rs[k]);
        lemma_resolved_len(b, rs.drop_last(), ls);
        assert(rs[rs.len() - 1] == rs.last());
    }
}

/// Relocation is surgical: outside the recorded displacement fields,
/// finalization rewrites nothing — every other byte of the sealed
/// program is exactly the byte that was emitted.
pub proof fn lemma_resolution_touches_only_fields(
    b: Seq<u8>,
    rs: Seq<(int, int)>,
    ls: Seq<Option<usize>>,
    j: int,
)
    requires
        relocs_in_bounds(rs, b.len() as int),
        0 <= j < b.len(),
        forall|k: int| 0 <= k < rs.len() ==> !((#[trigger] rs[k]).0 <= j < rs[k].0 + 4),
    ensures
        resolved_bytes(b, rs, ls)[j] == b[j],
    decreases rs.len(),
{
    if rs.len() == 0 {
    } else {
        assert(forall|k: int|
            0 <= k < rs.drop_last().len() ==> rs.drop_last()[k] == rs[k]);
        lemma_resolution_touches_only_fields(b, rs.drop_last(), ls, j);
        lemma_resolved_len(b, rs.drop_last(), ls);
        assert(rs[rs.len() - 1] == rs.last());
    }
}

/// A sealed program: executable memory plus its entry offset.
///
/// The memory is exclusively owned by this value and stays valid and
/// executable for its whole lifetime; the entry offset lies strictly
/// inside the bytes. Calling into it is left to the embedding program,
/// which must treat the entry as a function of the fixed four-argument,
/// one-result register convention — a callee that violates that
/// convention is undetectable here and corrupts state silently.
pub struct Program {
    /// The sealed executable memory.
    pub buf: dynasmrt::ExecutableBuffer,
    /// Byte offset of the program's entry point inside `buf`.
    pub entry: usize,
    /// The items the program was assembled from.
    pub code: Ghost<Seq<Instr>>,
}

impl Program {
    /// The sealed code bytes.
    pub open spec fn bytes(self) -> Seq<u8> {
        eb_bytes(self.buf)
    }

    /// Read the sealed code bytes back out.
    pub fn code_bytes(&self) -> (r: Vec<u8>)
        ensures
            r@ == self.bytes(),
    {
        buffer_bytes(&self.buf)
    }
}

} // verus!
