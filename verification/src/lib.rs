//! Data preparation for matplotlib figures.
//!
//! The crate turns already-parsed numeric data into the coordinate sequences that a
//! plotting backend draws, and decides which backend method and keyword arguments a
//! plotting request maps to. Everything here is executable Rust with machine-checked
//! contracts; nothing in this crate talks to the Python interpreter itself.

pub mod backend;
pub mod input;
pub mod polyline;
pub mod scatter;
