//! Verified core of a web-based simulator for small pixel displays.
//!
//! A logical drawing surface of `width × height` pixels is rendered onto a
//! larger physical canvas: every logical pixel becomes a `scale × scale`
//! block of physical pixels, with an optional gap (`pixel_spacing`) between
//! adjacent blocks.  Pixel writes land in an off-screen RGBA backing buffer
//! that is presented to the canvas in one bulk operation; the canvas itself
//! is owned by the embedding host and lives outside this crate.

pub mod display;
pub mod frame;
pub mod output_settings;
