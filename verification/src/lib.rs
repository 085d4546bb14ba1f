//! A character-cell display driver with a small ANSI/CSI terminal emulator.
//!
//! Bytes fed to the driver are dispatched to direct display writes, cursor
//! and color updates, or an escape-sequence decoder. The display is a fixed
//! 80x25 grid of (character, attribute) byte pairs, owned exclusively by the
//! driver; every mutation of it is specified against a sequence model.

pub mod laws;
pub mod parse;
pub mod screen;
pub mod terminal;
