//! Core of a process-attached terminal: a byte-accurate terminal emulator,
//! the decision logic of a pseudo-terminal session, and the line-oriented
//! bridge protocol that exposes such a session to an external controller.

pub mod emu;
pub mod laws;
pub mod color;
pub mod daemon;
pub mod protocol;
pub mod session;
pub mod switcher;
