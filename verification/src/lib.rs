//! Instruction-execution core of a register-based virtual machine.
//!
//! A program is a sequence of instructions. Each instruction reads typed
//! literal values from named registers, computes a typed result, and writes
//! it to a destination register. The library models the closed set of
//! literal kinds, the register store with its define/assign/load lifecycle,
//! operand resolution, the instruction families and their exact semantics,
//! and the symmetric textual and binary encodings of every instruction.
pub mod add_wrapped;
pub mod codec;
pub mod errors;
pub mod field;
pub mod group;
pub mod hash;
pub mod identifier;
pub mod instruction;
pub mod laws;
pub mod limbs;
pub mod literal;
pub mod mode;
pub mod model;
pub mod not_equal;
pub mod opcode;
pub mod operand;
pub mod operation;
pub mod registers;
pub mod scalar;
pub mod text;
