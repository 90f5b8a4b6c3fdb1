//! A CHIP-8 interpreter core: opcode decoding, the virtual machine, the
//! configuration format that maps CHIP-8 keys to Firefly Zero inputs, and
//! what the host shows and plays for the machine.
pub mod config;
pub mod display;
pub mod instruction_laws;
pub mod interpreter;
pub mod laws;
pub mod machine;
pub mod opcodes;
