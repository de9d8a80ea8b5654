//! Recursive-descent disassembly engine for x86 machine code.

pub mod analyze;
pub mod configuration;
pub mod cpu;
pub mod disasm;
pub mod engine;
pub mod functions;
pub mod header;
pub mod image;
pub mod laws;
pub mod loops;
pub mod memory;
pub mod model;
pub mod render;
pub mod replay;
