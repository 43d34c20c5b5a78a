//! The inert entity: rocks occupy grid cells and take rendering precedence,
//! but time does nothing to them.

use vstd::prelude::*;
use crate::board::{BoardSection, Location};
use crate::evolve::Evolve;

verus! {

/// Rock entity that has a very long lifespan.
#[derive(Clone, Copy, Debug, PartialEq, Eq, Structural)]
pub struct Rock {
    pub location: Location,
}

impl Evolve for Rock {
    open spec fn evolvable(&self, section: &BoardSection) -> bool {
        true
    }

    /// Passing time leaves a rock and its cell exactly as they were.
    fn evolve(&mut self, section: &mut BoardSection)
        ensures
            *final(self) == *old(self),
            *final(section) == *old(section),
    {
    }
}

} // verus!
