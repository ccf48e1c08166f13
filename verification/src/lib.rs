//! A verified virtual machine for the classic 8-bit instruction set with 16
//! general registers, 4096 bytes of memory, a 64x32 monochrome display, a
//! 16-key pad and two 60 Hz-class timers.
//!
//! The machine's behaviour is stated once, as the mathematical step function
//! in `semantics`, and the executor in `exec` is proved to realize it cycle
//! for cycle. `laws` proves the properties that hold of every state: exact
//! flag semantics of the arithmetic, the draw instruction's collision rule,
//! the call/return round trip, stack bounds, and timer decay.

#![allow(non_snake_case)]

pub mod decode;
pub mod exec;
pub mod laws;
pub mod semantics;
pub mod state;
