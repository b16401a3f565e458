//! A verified interpreter core for an 8-bit retro virtual machine: a flat
//! address space with a program cursor, sixteen 8-bit registers plus a 16-bit
//! index register, a return-address stack, two 60Hz countdown timers, and a
//! 64x32 monochrome XOR-plotted display.
//!
//! The host glue (file loading, terminal output, keyboard backend, timer
//! threads) lives outside this crate; the core exposes the machine as plain
//! values and proves the instruction semantics.

pub mod emulator;
