//! Core of a kiosk-style emulator launcher.
//!
//! The crate indexes a library of items on disk into per-system lists,
//! resolves which launch template claims a chosen item, supervises the one
//! external child process that may run at a time, and drives the settings
//! menu and button-remap state machine.  Everything here is pure logic over
//! plain values; reading directories, parsing the configuration document and
//! starting processes happen outside, in thin shells that feed this crate.

pub mod browse;
pub mod combo;
pub mod config;
pub mod menu;
pub mod scan;
pub mod style;
pub mod supervisor;
pub mod text;
