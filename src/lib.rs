//! Terminal playback of animated images: fitting frames to the terminal,
//! downsampling, packing two pixel rows into one character cell, and the
//! timing decisions of the playback loop.

pub mod fit;
pub mod frame;
pub mod area;
pub mod glyph;
pub mod filter;
pub mod playback;
