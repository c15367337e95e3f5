//! Variable-font feature compilation support.
//!
//! Turns glyph-level kerning recorded across a multi-axis design space into
//! deterministic feature-source text, resolves multi-location metrics into a
//! default value plus per-region deltas for a variable binary table, overlays
//! generated in-memory source onto a real include tree, and states the
//! contract this unit of work exposes to the surrounding build scheduler.
//!
//! Design-space coordinates are held in fixed point: a normalized coordinate
//! is an `i32` scaled by 16384 (the F2Dot14 scale the binary tables use), and
//! a region delta is an `i64` scaled by 65536. The external variation model's
//! answers cross into this crate in that form; everything computed from them
//! is verified.

pub mod coords;
pub mod kerning;
pub mod num;
pub mod overlay;
pub mod variations;
pub mod work;
