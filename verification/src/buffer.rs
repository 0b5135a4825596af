//! The code buffer: an append-only byte buffer with labels and
//! relocation bookkeeping.
//!
//! Emitting an item appends exactly its encoding ([`crate::isa::instr_bytes`]);
//! a label is an index handed out by [`CodeBuffer::new_label`] and bound
//! to the current offset by [`CodeBuffer::define_label`], before or
//! after the instructions that refer to it; each label-relative `lea`
//! records a relocation whose 32-bit displacement field is patched at
//! finalization. The buffer's contents, labels and relocations are all
//! plain verified state; nothing here is taken on trust.

use vstd::prelude::*;

use crate::isa::Instr;
use crate::isa::encode;
use crate::isa::instr_bytes;
use crate::isa::lemma_prog_bytes_push;
use crate::isa::prog_bytes;
use crate::isa::u32_le_bytes;
use crate::program::FinalizeError;
use crate::program::Program;
use crate::program::all_labels_resolved;
use crate::program::disp_enc;
use crate::program::lemma_resolved_len;
use crate::program::make_executable;
use crate::program::patch4;
use crate::program::resolved_bytes;
use crate::program::resolved_label;

verus! {

/// Most bytes a buffer may hold. Keeping the buffer well below
/// 2^31 bytes keeps every RIP-relative displacement representable in
/// its signed 32-bit field.
pub const MAX_CODE: usize = 0x0FFF_FFFF;

/// A build-time failure: the buffer was asked to emit what it cannot
/// represent.
#[derive(Clone, Copy, Debug, PartialEq, Eq, Structural)]
pub enum EncodeError {
    /// A label index that this buffer never handed out.
    UnknownLabel,
    /// The label was already bound to an offset.
    RedefinedLabel,
    /// Emitting would grow the buffer past [`MAX_CODE`] bytes.
    BufferFull,
    /// A call-site setup instruction the bridge does not accept.
    InvalidSetup,
}

/// A byte position inside the buffer that produced it, usable later
/// as the program's entry point.
#[derive(Clone, Copy, Debug)]
pub struct Offset {
    pub(crate) pos: usize,
}

impl Offset {
    /// The byte position this handle denotes.
    pub closed spec fn pos(self) -> int {
        self.pos as int
    }
}

/// A recorded patch site: `at` is the byte position of a 32-bit
/// displacement field referring to label `label`.
#[derive(Clone, Copy, Debug)]
pub(crate) struct Reloc {
    pub(crate) at: usize,
    pub(crate) label: usize,
}

/// The patch site an item contributes when emitted at byte offset
/// `base`: a `lea`'s displacement field sits 3 bytes into its encoding.
pub open spec fn reloc_item(i: Instr, base: int) -> Seq<(int, int)> {
    match i {
        Instr::Lea { dst: _, label } => seq![(base + 3, label as int)],
        _ => Seq::empty(),
    }
}

/// All patch sites of an item sequence laid down from byte offset
/// `base`.
pub open spec fn relocs_of(code: Seq<Instr>, base: int) -> Seq<(int, int)>
    decreases code.len(),
{
    if code.len() == 0 {
        Seq::empty()
    } else {
        relocs_of(code.drop_last(), base) + reloc_item(
            code.last(),
            base + prog_bytes(code.drop_last()).len(),
        )
    }
}

/// Appending one item appends exactly its patch sites.
pub proof fn lemma_relocs_of_push(code: Seq<Instr>, i: Instr, base: int)
    ensures
        relocs_of(code.push(i), base) == relocs_of(code, base) + reloc_item(
            i,
            base + prog_bytes(code).len(),
        ),
{
    assert(code.push(i).drop_last() =~= code);
    assert(code.push(i).last() == i);
}

/// Does a `lea`'s label index lie inside the `nlabels` labels the
/// buffer has handed out? (Vacuously true of every other item.)
pub open spec fn lea_label_ok(i: Instr, nlabels: int) -> bool {
    match i {
        Instr::Lea { dst: _, label } => (label as int) < nlabels,
        _ => true,
    }
}

/// An append-only byte buffer plus label and relocation records.
pub struct CodeBuffer {
    pub(crate) bytes: Vec<u8>,
    pub(crate) labels: Vec<Option<usize>>,
    pub(crate) relocs: Vec<Reloc>,
    pub(crate) code: Ghost<Seq<Instr>>,
}

impl CodeBuffer {
    /// The bytes assembled so far.
    pub closed spec fn bytes_view(self) -> Seq<u8> {
        self.bytes@
    }

    /// The binding of each label the buffer has handed out: `None`
    /// until defined, then the byte offset it was bound to.
    pub closed spec fn labels_view(self) -> Seq<Option<usize>> {
        self.labels@
    }

    /// The recorded patch sites, as (field position, label index).
    pub closed spec fn relocs_view(self) -> Seq<(int, int)> {
        self.relocs@.map(|k: int, r: Reloc| (r.at as int, r.label as int))
    }

    /// The items emitted so far, in order.
    pub closed spec fn code_view(self) -> Seq<Instr> {
        self.code@
    }

    /// The buffer's internal soundness: its bytes are exactly the
    /// encoding of the items emitted, every patch site lies inside the
    /// bytes and names a handed-out label, and every bound label lies
    /// inside the bytes.
    pub closed spec fn wf(self) -> bool {
        &&& self.bytes@ == prog_bytes(self.code@)
        &&& self.bytes@.len() <= MAX_CODE
        &&& self.relocs_view() == relocs_of(self.code@, 0)
        &&& forall|k: int|
            0 <= k < self.relocs@.len() ==> (#[trigger] self.relocs@[k]).at + 4
                <= self.bytes@.len() && self.relocs@[k].label < self.labels@.len()
        &&& forall|k: int|
            0 <= k < self.labels@.len() ==> (#[trigger] self.labels@[k] matches Some(o) ==> o
                <= self.bytes@.len())
    }

    /// The byte contract of the buffer: its contents are determined,
    /// byte for byte, by the sequence of items emitted into it.
    pub proof fn lemma_bytes_encode_code(self)
        requires
            self.wf(),
        ensures
            self.bytes_view() == prog_bytes(self.code_view()),
            self.bytes_view().len() <= MAX_CODE,
            self.relocs_view() == relocs_of(self.code_view(), 0),
    {
    }

    /// A fresh, empty buffer.
    pub fn new() -> (r: CodeBuffer)
        ensures
            r.wf(),
            r.bytes_view() == Seq::<u8>::empty(),
            r.labels_view() == Seq::<Option<usize>>::empty(),
            r.relocs_view() == Seq::<(int, int)>::empty(),
            r.code_view() == Seq::<Instr>::empty(),
    {
        let r = CodeBuffer {
            bytes: Vec::new(),
            labels: Vec::new(),
            relocs: Vec::new(),
            code: Ghost(Seq::empty()),
        };
        proof {
            assert(r.relocs_view() =~= Seq::<(int, int)>::empty());
        }
        r
    }

    /// How many labels the buffer has handed out.
    pub fn label_count(&self) -> (n: usize)
        ensures
            n == self.labels_view().len(),
    {
        self.labels.len()
    }

    /// Bytes assembled so far.
    pub fn size(&self) -> (n: usize)
        ensures
            n == self.bytes_view().len(),
    {
        self.bytes.len()
    }

    /// A snapshot of the current write position.
    pub fn current_offset(&self) -> (o: Offset)
        ensures
            o.pos() == self.bytes_view().len(),
    {
        Offset { pos: self.bytes.len() }
    }

    /// A copy of the bytes assembled so far.
    pub fn to_bytes(&self) -> (r: Vec<u8>)
        ensures
            r@ == self.bytes_view(),
    {
        let mut r: Vec<u8> = Vec::new();
        let mut j: usize = 0;
        while j < self.bytes.len()
            invariant
                j <= self.bytes.len(),
                r@ == self.bytes@.take(j as int),
            decreases self.bytes.len() - j,
        {
            r.push(self.bytes[j]);
            assert(r@ =~= self.bytes@.take(j + 1 as int));
            j = j + 1;
        }
        assert(self.bytes@.take(self.bytes.len() as int) =~= self.bytes@);
        r
    }

    /// Hand out a fresh, still-undefined label.
    pub fn new_label(&mut self) -> (l: usize)
        requires
            old(self).wf(),
        ensures
            final(self).wf(),
            l == old(self).labels_view().len(),
            final(self).labels_view() == old(self).labels_view().push(None::<usize>),
            final(self).bytes_view() == old(self).bytes_view(),
            final(self).relocs_view() == old(self).relocs_view(),
            final(self).code_view() == old(self).code_view(),
    {
        let l = self.labels.len();
        self.labels.push(None);
        l
    }

    /// Bind a label to the current offset, resolving every prior or
    /// later reference to it. Fails exactly on a label this buffer
    /// never handed out, or on one already bound.
    pub fn define_label(&mut self, l: usize) -> (r: Result<(), EncodeError>)
        requires
            old(self).wf(),
        ensures
            final(self).wf(),
            match r {
                Ok(()) => {
                    &&& (l as int) < old(self).labels_view().len()
                    &&& old(self).labels_view()[l as int] is None
                    &&& final(self).labels_view() == old(self).labels_view().update(
                        l as int,
                        Some(old(self).bytes_view().len() as usize),
                    )
                    &&& final(self).bytes_view() == old(self).bytes_view()
                    &&& final(self).relocs_view() == old(self).relocs_view()
                    &&& final(self).code_view() == old(self).code_view()
                },
                Err(e) => {
                    &&& *final(self) == *old(self)
                    &&& !((l as int) < old(self).labels_view().len() && old(
                        self,
                    ).labels_view()[l as int] is None)
                    &&& (e == EncodeError::UnknownLabel <==> (l as int) >= old(
                        self,
                    ).labels_view().len())
                    &&& (e == EncodeError::RedefinedLabel <==> (l as int) < old(
                        self,
                    ).labels_view().len() && old(self).labels_view()[l as int] is Some)
                },
            },
    {
        if l >= self.labels.len() {
            return Err(EncodeError::UnknownLabel);
        }
        if self.labels[l].is_some() {
            return Err(EncodeError::RedefinedLabel);
        }
        let off = self.bytes.len();
        self.labels[l] = Some(off);
        Ok(())
    }

    /// Append one item. On success the buffer grows by exactly the
    /// item's encoding and, for a label-relative `lea`, records the
    /// patch site of its displacement field. Fails exactly on a `lea`
    /// whose label this buffer never handed out, or when the encoding
    /// would grow the buffer past [`MAX_CODE`] bytes; a failed emit
    /// leaves the buffer unchanged.
    pub fn emit(&mut self, i: Instr) -> (r: Result<(), EncodeError>)
        requires
            old(self).wf(),
        ensures
            final(self).wf(),
            match r {
                Ok(()) => {
                    &&& lea_label_ok(i, old(self).labels_view().len() as int)
                    &&& old(self).bytes_view().len() + instr_bytes(i).len() <= MAX_CODE
                    &&& final(self).code_view() == old(self).code_view().push(i)
                    &&& final(self).bytes_view() == old(self).bytes_view() + instr_bytes(i)
                    &&& final(self).labels_view() == old(self).labels_view()
                    &&& final(self).relocs_view() == old(self).relocs_view() + reloc_item(
                        i,
                        old(self).bytes_view().len() as int,
                    )
                },
                Err(e) => {
                    &&& *final(self) == *old(self)
                    &&& !(lea_label_ok(i, old(self).labels_view().len() as int) && old(
                        self,
                    ).bytes_view().len() + instr_bytes(i).len() <= MAX_CODE)
                    &&& (e == EncodeError::UnknownLabel <==> !lea_label_ok(
                        i,
                        old(self).labels_view().len() as int,
                    ))
                    &&& (e == EncodeError::BufferFull <==> lea_label_ok(
                        i,
                        old(self).labels_view().len() as int,
                    ) && old(self).bytes_view().len() + instr_bytes(i).len() > MAX_CODE)
                },
            },
    {
        let lbl_ok = match &i {
            Instr::Lea { dst: _, label } => *label < self.labels.len(),
            _ => true,
        };
        if !lbl_ok {
            return Err(EncodeError::UnknownLabel);
        }
        let n = crate::isa::instr_len(&i);
        if n > MAX_CODE || self.bytes.len() > MAX_CODE - n {
            return Err(EncodeError::BufferFull);
        }
        let mut enc = encode(&i);
        let at = self.bytes.len();
        let ghost old_self = *self;
        self.bytes.append(&mut enc);
        if let Instr::Lea { dst: _, label } = &i {
            self.relocs.push(Reloc { at: at + 3, label: *label });
        }
        proof {
            self.code@ = self.code@.push(i);
            lemma_prog_bytes_push(old_self.code@, i);
            lemma_relocs_of_push(old_self.code@, i, 0);
            assert(self.relocs_view() =~= old_self.relocs_view() + reloc_item(i, at as int));
        }
        Ok(())
    }

    /// Append raw data bytes (e.g. an embedded string), uninterpreted.
    pub fn emit_bytes(&mut self, data: Vec<u8>) -> (r: Result<(), EncodeError>)
        requires
            old(self).wf(),
        ensures
            final(self).wf(),
            match r {
                Ok(()) => {
                    &&& old(self).bytes_view().len() + data@.len() <= MAX_CODE
                    &&& final(self).code_view() == old(self).code_view().push(Instr::Data(data))
                    &&& final(self).bytes_view() == old(self).bytes_view() + data@
                    &&& final(self).labels_view() == old(self).labels_view()
                    &&& final(self).relocs_view() == old(self).relocs_view()
                },
                Err(e) => {
                    &&& *final(self) == *old(self)
                    &&& e == EncodeError::BufferFull
                    &&& old(self).bytes_view().len() + data@.len() > MAX_CODE
                },
            },
    {
        let ghost pre = *self;
        let r = self.emit(Instr::Data(data));
        proof {
            if r is Ok {
                assert(self.relocs_view() =~= pre.relocs_view());
            }
        }
        r
    }
}

impl CodeBuffer {
    /// Seal the buffer: resolve every recorded label reference, then
    /// move the bytes into executable memory. Consumes the buffer —
    /// exactly one program can come out of it. Fails exactly when the
    /// entry offset lies outside the bytes, or when some reference
    /// names a label never bound; with both in order, only a refusal
    /// of executable memory by the operating system remains.
    #[verifier::loop_isolation(false)]
    pub fn finalize(self, entry: Offset) -> (r: Result<Program, FinalizeError>)
        requires
            self.wf(),
        ensures
            match r {
                Ok(p) => {
                    &&& entry.pos() < self.bytes_view().len()
                    &&& all_labels_resolved(self.relocs_view(), self.labels_view())
                    &&& p.entry == entry.pos()
                    &&& p.code@ == self.code_view()
                    &&& p.bytes() == resolved_bytes(
                        self.bytes_view(),
                        self.relocs_view(),
                        self.labels_view(),
                    )
                    &&& p.bytes().len() == self.bytes_view().len()
                },
                Err(FinalizeError::EntryOutOfBounds) => entry.pos() >= self.bytes_view().len(),
                Err(FinalizeError::UnresolvedLabel) => entry.pos() < self.bytes_view().len()
                    && !all_labels_resolved(self.relocs_view(), self.labels_view()),
                Err(FinalizeError::ExecutableMemory) => entry.pos() < self.bytes_view().len()
                    && all_labels_resolved(self.relocs_view(), self.labels_view()),
            },
    {
        let ghost s = self;
        let CodeBuffer { mut bytes, labels, relocs, code } = self;
        if entry.pos >= bytes.len() {
            return Err(FinalizeError::EntryOutOfBounds);
        }
        // First pass: every referenced label must be bound.
        let mut k: usize = 0;
        while k < relocs.len()
            invariant
                k <= relocs.len(),
                relocs@ == s.relocs@,
                labels@ == s.labels@,
                bytes@ == s.bytes@,
                entry.pos < bytes.len(),
                s.wf(),
                forall|j: int|
                    0 <= j < k ==> s.labels_view()[(#[trigger] s.relocs_view()[j]).1]
                        is Some,
            decreases relocs.len() - k,
        {
            assert(s.relocs_view()[k as int].1 == relocs@[k as int].label as int);
            if labels[relocs[k].label].is_none() {
                proof {
                    assert(!(s.labels_view()[(s.relocs_view()[k as int]).1] is Some));
                    assert(!all_labels_resolved(s.relocs_view(), s.labels_view()));
                }
                return Err(FinalizeError::UnresolvedLabel);
            }
            k = k + 1;
        }
        // Second pass: patch each displacement field.
        let ghost orig = bytes@;
        let mut k: usize = 0;
        while k < relocs.len()
            invariant
                k <= relocs.len(),
                relocs@ == s.relocs@,
                labels@ == s.labels@,
                s.wf(),
                all_labels_resolved(s.relocs_view(), s.labels_view()),
                orig == s.bytes_view(),
                bytes@ == resolved_bytes(
                    orig,
                    s.relocs_view().take(k as int),
                    s.labels_view(),
                ),
                bytes@.len() == orig.len(),
            decreases relocs.len() - k,
        {
            let at = relocs[k].at;
            let target: usize = match labels[relocs[k].label] {
                Some(o) => o,
                None => {
                    proof {
                        assert(s.labels_view()[(s.relocs_view()[k as int]).1] is Some);
                    }
                    // Unreachable: the first pass bound every label.
                    assert(false);
                    0
                },
            };
            let next = at + 4;
            let e: u32 = if target >= next {
                (target - next) as u32
            } else {
                ((0x100000000u64 - ((next - target) as u64)) as u32)
            };
            let ghost before = bytes@;
            bytes[at] = (e % 256) as u8;
            bytes[at + 1] = ((e / 0x100) % 256) as u8;
            bytes[at + 2] = ((e / 0x10000) % 256) as u8;
            bytes[at + 3] = ((e / 0x1000000) % 256) as u8;
            proof {
                let rv = s.relocs_view();
                let lv = s.labels_view();
                assert(rv[k as int] == (at as int, relocs@[k as int].label as int));
                assert(resolved_label(lv, rv[k as int].1) == target as int);
                assert(e == disp_enc(target as int, at + 4 as int));
                assert(bytes@ =~= patch4(
                    before,
                    at as int,
                    u32_le_bytes(disp_enc(resolved_label(lv, rv[k as int].1), at + 4)),
                ));
                assert(rv.take(k + 1 as int).drop_last() =~= rv.take(k as int));
                assert(rv.take(k + 1 as int).last() == rv[k as int]);
            }
            k = k + 1;
        }
        proof {
            assert(s.relocs_view().take(s.relocs_view().len() as int) =~= s.relocs_view());
        }
        let buf = match make_executable(&bytes) {
            Ok(b) => b,
            Err(_) => {
                return Err(FinalizeError::ExecutableMemory);
            },
        };
        proof {
            assert forall|j: int| 0 <= j < s.relocs_view().len() implies 0 <= (
            #[trigger] s.relocs_view()[j]).0 && s.relocs_view()[j].0 + 4 <= orig.len() by {
                assert(s.relocs@[j].at + 4 <= s.bytes@.len());
            }
            lemma_resolved_len(orig, s.relocs_view(), s.labels_view());
        }
        Ok(Program { buf, entry: entry.pos, code })
    }
}

} // verus!
