//! The field pool: owner of the four named field slots and of the only
//! cross-slot mutation primitive, the full-contents copy ("blit").
//!
//! A stage that must "update the trail in place" instead reads one slot and
//! writes another, and the pool commits the result back by a blit. Requesting
//! a blit between slots of mismatched extents is a configuration error,
//! fatal at setup; the pool's well-formedness keeps all four slots at equal
//! extents, so once a pool exists no blit can fail.

use vstd::prelude::*;
use crate::field::{Field, MAX_DIM, zero_grid};
use crate::slot::Slot;

verus! {

/// The setup-fatal configuration error of pool assembly.
#[derive(Clone, Copy, PartialEq, Eq, Structural, Debug)]
pub enum PoolError {
    /// Two slots offered to the pool differ in extent, so a blit between
    /// them would be undefined.
    DimensionMismatch,
}

/// The four named field slots of one simulation run.
pub struct FieldPool {
    pub trail: Field,
    pub trail_staging: Field,
    pub diffused: Field,
    pub display: Field,
}

impl FieldPool {
    /// The field currently held by slot `s`.
    pub open spec fn slot(self, s: Slot) -> Field {
        match s {
            Slot::Trail => self.trail,
            Slot::TrailStaging => self.trail_staging,
            Slot::Diffused => self.diffused,
            Slot::Display => self.display,
        }
    }

    /// Well-formedness: every slot is a well-formed field and all four share
    /// one extent.
    pub open spec fn wf(self) -> bool {
        &&& self.trail.wf()
        &&& self.trail_staging.wf()
        &&& self.diffused.wf()
        &&& self.display.wf()
        &&& self.trail_staging.same_dims(self.trail)
        &&& self.diffused.same_dims(self.trail)
        &&& self.display.same_dims(self.trail)
    }

    /// The shared width of the pool's slots.
    pub open spec fn width(self) -> int {
        self.trail.width as int
    }

    /// The shared height of the pool's slots.
    pub open spec fn height(self) -> int {
        self.trail.height as int
    }

    /// A pool of four zeroed slots of the given extents.
    pub fn new(width: usize, height: usize) -> (r: FieldPool)
        requires
            1 <= width <= MAX_DIM,
            1 <= height <= MAX_DIM,
        ensures
            r.wf(),
            r.width() == width,
            r.height() == height,
            forall|s: Slot, x: int, y: int|
                0 <= x < width && 0 <= y < height ==> #[trigger] r.slot(s).at(x, y) == 0,
            forall|s: Slot| (#[trigger] r.slot(s)).cells@ == zero_grid(
                width as int,
                height as int,
            ),
    {
        let r = FieldPool {
            trail: Field::new(width, height),
            trail_staging: Field::new(width, height),
            diffused: Field::new(width, height),
            display: Field::new(width, height),
        };
        proof {
            assert forall|s: Slot, x: int, y: int|
                0 <= x < width && 0 <= y < height implies #[trigger] r.slot(s).at(x, y) == 0 by {
                match s {
                    Slot::Trail => {}
                    Slot::TrailStaging => {}
                    Slot::Diffused => {}
                    Slot::Display => {}
                }
            }
            assert forall|s: Slot| (#[trigger] r.slot(s)).cells@ == zero_grid(
                width as int,
                height as int,
            ) by {
                match s {
                    Slot::Trail => {}
                    Slot::TrailStaging => {}
                    Slot::Diffused => {}
                    Slot::Display => {}
                }
            }
        }
        r
    }

    /// Assembles a pool from four independently created fields, rejecting
    /// mismatched extents. The mismatch is the run's one configuration
    /// error: it is reported at setup and never at runtime.
    pub fn assemble(trail: Field, trail_staging: Field, diffused: Field, display: Field) -> (r:
        Result<FieldPool, PoolError>)
        requires
            trail.wf(),
            trail_staging.wf(),
            diffused.wf(),
            display.wf(),
        ensures
            r is Ok <==> (trail_staging.same_dims(trail) && diffused.same_dims(trail)
                && display.same_dims(trail)),
            r matches Ok(p) ==> p == (FieldPool { trail, trail_staging, diffused, display }),
            r matches Err(e) ==> e == PoolError::DimensionMismatch,
    {
        if trail_staging.width == trail.width && trail_staging.height == trail.height
            && diffused.width == trail.width && diffused.height == trail.height
            && display.width == trail.width && display.height == trail.height {
            Ok(FieldPool { trail, trail_staging, diffused, display })
        } else {
            Err(PoolError::DimensionMismatch)
        }
    }

    /// Copies the full contents of slot `src` into slot `dst`, ordered after
    /// every prior write of `src` and before every later read of `dst`; the
    /// other slots are untouched.
    pub fn blit(&mut self, src: Slot, dst: Slot)
        requires
            old(self).wf(),
            src != dst,
        ensures
            final(self).wf(),
            final(self).width() == old(self).width(),
            final(self).height() == old(self).height(),
            final(self).slot(dst).cells@ == old(self).slot(src).cells@,
            final(self).slot(dst).same_dims(old(self).slot(dst)),
            final(self).slot(src) == old(self).slot(src),
            forall|s: Slot| s != dst ==> #[trigger] final(self).slot(s) == old(self).slot(s),
    {
        let copy = match src {
            Slot::Trail => self.trail.snapshot(),
            Slot::TrailStaging => self.trail_staging.snapshot(),
            Slot::Diffused => self.diffused.snapshot(),
            Slot::Display => self.display.snapshot(),
        };
        match dst {
            Slot::Trail => {
                self.trail = copy;
            }
            Slot::TrailStaging => {
                self.trail_staging = copy;
            }
            Slot::Diffused => {
                self.diffused = copy;
            }
            Slot::Display => {
                self.display = copy;
            }
        }
    }
}

} // verus!
