//! A verified CHIP-8 interpreter core.
//!
//! The machine state (memory, registers, call stack, timers, keypad latch and
//! framebuffer) lives in [`state::CPU`]; every instruction of the 35-opcode
//! set is decoded by [`instr::decode_opcode`] and executed against a
//! mathematical model of the machine, so that each cycle of the interpreter
//! is proved to follow the instruction table exactly.

pub mod draw;
pub mod exec;
pub mod instr;
pub mod laws;
pub mod state;
