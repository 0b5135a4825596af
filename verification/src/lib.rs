//! A minimal native-code emission and calling-convention bridge.
//!
//! The crate assembles a fixed, small instruction repertoire into a byte
//! buffer, establishes a four-register argument convention for the
//! assembled program, emits call-site wrappers that preserve the argument
//! registers across calls into host-resident functions, resolves label
//! references, and seals the finished buffer into executable memory.
//!
//! The byte encoding, the label/relocation bookkeeping and the
//! calling-convention stack discipline are verified; obtaining executable
//! memory is delegated to the assembler runtime behind a narrow trusted
//! boundary, and the final unsafe cast of an entry address to a callable
//! function is left to the embedding program.


pub mod buffer;
pub mod convention;
pub mod isa;
pub mod laws;
pub mod machine;
pub mod program;

