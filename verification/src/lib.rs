//! pmux: a terminal multiplexer library.
//!
//! Session management, a VT100/ANSI screen model with a command transcript,
//! a binary client/daemon protocol and the helpers around them.
pub mod consts;
pub mod text;
pub mod escape;
pub mod session;

pub mod ipc;
pub mod screen;
pub mod cli;
pub mod client;
pub mod server;
pub mod pty;
pub mod platform;
pub mod commands;
pub mod log;
pub mod daemon;
