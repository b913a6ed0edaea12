//! Text layout and console core: glyph atlas packing, exact-metrics word
//! wrapping, and a bounded, scrollable line history for a live text console.
//!
//! Widths and positions are measured in integer "width units" chosen by the
//! caller (for example 1/64 of a pixel); times are in milliseconds.

pub mod chatbox;
pub mod rrs;
pub mod text;
pub mod textured;
pub mod util;
pub mod win;
