//! wmux: terminal session persistence for Windows.
//!
//! Start a session, detach, close the window, reattach later: the shell and everything running in
//! it keep going.
//!
//! # Architecture
//!
//! ```text
//!   wmux new ──spawns──> wmux server (no console)
//!                             │
//!                             ├── pty ──> pwsh.exe
//!                             ├── terminal model  (screen for repaint)
//!                             └── named pipe ──< wmux attach (any terminal)
//! ```
//!
//! The library holds the decisions: what bytes on the pipe mean, what keys do, who gets which
//! message, what the system is to be asked for, and what its answers come to. Whatever waits,
//! reads or writes is up to the program around it.

pub mod cli;
pub mod client;
pub mod console;
pub mod escape;
pub mod input;
pub mod pipe;
pub mod protocol;
pub mod run;
pub mod server;
pub mod session;
pub mod terminal;
pub mod text;
pub mod utf8;
pub mod wide;
