//! Verified core of a terminal editor driven by raw Linux input devices:
//! decoding of input events, the keyboard and mouse state machines, the
//! terminal's cursor report, the terminal line-mode flags, and a BDF bitmap
//! font reader with its half-block renderer.

pub mod screen;
pub mod digits;
pub mod font;
pub mod event;
pub mod keyboard;
pub mod mouse;
pub mod terminal;
