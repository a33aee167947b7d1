//! Array-artifact pipeline of the dark matter simulator: the flat-array file
//! codec, the two-source artifact resolver, the inference orchestrator and the
//! single-slot precompute cache, with their contracts proved.
//!
//! The library computes and decides; it reads no file, starts no process and
//! asks no server. Where outside work is needed, it says what is to be done
//! and takes the outcome as a value. Densities are held as the bit patterns
//! of single-precision numbers.

pub mod artifact;
pub mod scan;
pub mod header;
pub mod format;
pub mod padding;
pub mod codec;
pub mod resolver;
pub mod orchestrator;
pub mod cache;
pub mod grid;
pub mod trusted;
