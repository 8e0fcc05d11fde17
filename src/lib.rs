//! Event interpretation and action dispatch for a USB macropad.
//!
//! Raw device reports become discrete button and encoder events, a window
//! title selects the active application profile, and the bound command is
//! turned into a program of key synthesis steps or a radial-menu request.

pub mod macropad_state;
pub mod hid;
pub mod config;
pub mod text;
pub mod key_combination;
pub mod keys;
pub mod dispatch;
pub mod events;
pub mod window;
