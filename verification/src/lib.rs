//! Binary introspection and disassembly engine.
//!
//! Parses object files and static archives into a normalized
//! container / section / symbol model, estimates symbol byte extents from
//! neighboring symbol addresses, resolves relocations back to symbols, and
//! decodes a symbol's bytes into classified instruction tokens with symbolic
//! substitution of relocated references.

pub mod container;
pub mod disasm;
pub mod extent;
pub mod laws;
pub mod loader;
pub mod model;
pub mod order;
pub mod trusted;
