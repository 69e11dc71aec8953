//! Core logic of a VT-compatible terminal emulator: the escape-sequence
//! parser, the screen grid with scrollback and alternate screen, the
//! sequence handler, selection, and the decoders and tables around them.

pub mod actions;
pub mod config;
pub mod crash;
pub mod image;
pub mod input;
pub mod keys;
pub mod log;
pub mod menu;
pub mod perf;
pub mod pty;
pub mod render;
pub mod tabs;
pub mod tailscale;
pub mod terminal;
pub mod text;
pub mod url;
