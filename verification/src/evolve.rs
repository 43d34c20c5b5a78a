//! All effects that are the result of passing time are invoked through the
//! [`Evolve`] trait, so that the driving loop can treat every entity alike.

use vstd::prelude::*;
use crate::board::BoardSection;

verus! {

/// One tick of simulated time, applied to an entity against the one grid
/// cell it occupies.
pub trait Evolve {
    /// When one tick may be applied to the entity against the given cell.
    spec fn evolvable(&self, section: &BoardSection) -> bool;

    /// Apply one tick of simulated time against the entity's own grid cell.
    fn evolve(&mut self, section: &mut BoardSection)
        requires
            old(self).evolvable(old(section)),
    ;
}

} // verus!
