//! Core of a Lua-flavored bytecode virtual machine: the value model, the
//! shared-table arena, the opcode set, and the interpreter loop that executes
//! compiled chunks against a mutable value environment.

pub mod chunk;
pub mod laws;
pub mod table;
pub mod value;
pub mod vm;
