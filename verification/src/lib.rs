//! A verified MIPS assembler and partial instruction-set emulator.
//!
//! The assembler turns a preprocessed statement sequence (labels, directives
//! and instructions) into 32-bit machine words over two passes: pass one
//! assigns an address to every label, pass two encodes each instruction
//! against the instruction catalog and emits the words as little-endian
//! bytes.  The execution engine fetches, decodes and dispatches those words
//! against a register file and a segmented memory model.

pub mod errors;
pub mod codec;
pub mod strutil;
pub mod numparse;
pub mod regs;
pub mod catalog;
pub mod labels;
pub mod pipeline;
pub mod machine;
pub mod text;
