//! Control plane of a CPU emulator: guest memory, registers and context
//! snapshots, instrumentation hooks, the execution state machine and the
//! persistent fuzzing loop.

pub mod error;
pub mod memory;
pub mod registers;
pub mod hooks;
pub mod exec;
pub mod fuzz;
pub mod engine;
