//! A pane's bytes and keys: framing, encoding, and the emulated grid.
pub mod buffer;
pub mod cell;
pub mod delta;
pub mod emulator;
pub mod frames;
pub mod herdr;
pub mod keys;
pub mod link;
pub mod pen;
pub mod pending;
pub mod picker;
pub mod prompt;
pub mod registry;
pub mod relay;
pub mod screen;
pub mod shim;
pub mod shim_screen;
pub mod source;
pub mod style;
pub mod styles;
