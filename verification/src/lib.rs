//! A small fixed-instruction-width virtual machine: a two-pass assembler
//! (label resolution and instruction encoding) feeding a fetch-decode-execute
//! loop over a unified memory region shared by code and an operand stack.

pub mod assembler;
pub mod isa;
pub mod text;
pub mod vm;
