//! Debug-target core for a CPU emulator: register transfer, breakpoint and
//! watchpoint bookkeeping, and the step/watchpoint stop coordination.
pub mod codec;
pub mod error;
pub mod registers;
pub mod registry;
pub mod session;
