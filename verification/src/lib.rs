//! Control core of a minimal interactive native-code debugger for
//! little-endian 64-bit ELF executables.
//!
//! The crate is organised around one [`context::Context`] per debugging
//! session.  A session owns the parsed binaries, the symbol table, the
//! breakpoint table and (while a target process is live) a [`ptracer::Ptracer`]
//! handle.  All interaction with the operating system's tracing primitives
//! goes through the [`ptracer::TracePort`] trait, which the embedding program
//! implements with real process-tracing syscalls; every decision the session
//! makes about trap bytes, instruction pointers and breakpoint state is
//! verified here, for every possible behaviour of the traced process.

pub mod binary;
pub mod breakpoint;
pub mod command;
pub mod context;
pub mod eval;
pub mod expr;
pub mod flags;
pub mod ptracer;
pub mod target_desc;
pub mod text;
