//! Lattices

use super::SiteStateNN;
use vstd::prelude::*;

verus! {

/// Arbitrary lattice
pub trait Lattice: SiteStateNN {
}

} // verus!

/// Square lattices
pub mod square_lattices;
