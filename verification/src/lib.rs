//! An artificial-life sandbox: cells that carry a genetic program compete for
//! food on a bucketed plane, replicate with mutation and starve.
//!
//! Every quantity is a decimal fixed-point number ([`fixed::Fixed`]), so that
//! each step of the simulation has an exact arithmetic meaning.

pub mod cell;
pub mod cell_manager;
pub mod collections;
pub mod config;
pub mod dna;
pub mod fixed;
pub mod grid;
pub mod id;
pub mod random;
pub mod tick;
