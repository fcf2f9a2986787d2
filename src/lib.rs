//! Lattice-structured simulation states with periodic boundaries.
//!
//! The crate models dense square lattices of sites (one, two or three
//! dimensions) with wrap-around neighbourhoods, initial-state strategies and a
//! composition-conserving swap diffusion.

mod sampling;
pub mod states;
pub mod utils;
