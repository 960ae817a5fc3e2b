//! Input pipeline of a split mechanical keyboard.
//!
//! A raw switch-matrix snapshot is debounced into ordered key events, the
//! events drive a layered layout engine, and the active key codes are packed
//! into a boot-keyboard HID report. Every step carries a machine-checked
//! contract.

pub mod event;
pub mod debounce;
pub mod debounce_laws;
pub mod report;
pub mod engine;
pub mod keyboard;
