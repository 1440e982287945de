//! A machine-code encoder for a microcontroller instruction set with 16-bit
//! instruction words: typed operands are turned into field patterns and
//! packed into words by bit templates, and the bytes are appended to an
//! output buffer.
pub mod assembler;
pub mod catalog;
pub mod instructions;
pub mod laws;
pub mod operand;
pub mod template;

pub use assembler::Assembler;
pub use operand::{
    absolute, encode_operand, relative, Arg, ArgConsumer, Direction, DirectionalRegisterPair,
    EncodeError, Offset, OffsetRegisterPair, Register, RegisterPair,
};
