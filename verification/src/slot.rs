//! Field slots and the dispatch vocabulary of the frame scheduler.
//!
//! The field pool owns four named slots. One unit of GPU work (a dispatch)
//! binds some slots read-only and some write-only; the hardware constraint
//! that a storage image is never bound as both read and write target within
//! one dispatch is the `role_exclusive` predicate below.

use vstd::prelude::*;

verus! {

/// One of the four named 2D field resources owned by the field pool.
///
/// `Trail` is the authoritative field at the start and end of every sub-step;
/// `TrailStaging` and `Diffused` are transient scratch slots; `Display` holds
/// the final composition, overwritten once per visual frame.
#[derive(Clone, Copy, PartialEq, Eq, Structural, Debug)]
pub enum Slot {
    Trail,
    TrailStaging,
    Diffused,
    Display,
}

/// One dispatch issued by the frame scheduler, with its fixed binding
/// contract: which slots it reads and which it writes.
///
/// `Simulate` additionally reads and writes the agent store and
/// `CompositeAgents` reads it, but the agent store is a buffer, not a field
/// slot, and is never bound to any other stage.
#[derive(Clone, Copy, PartialEq, Eq, Structural, Debug)]
pub enum Dispatch {
    /// Copy the full contents of `src` into `dst`.
    Blit { src: Slot, dst: Slot },
    /// Set every cell of `dst` to zero.
    Clear { dst: Slot },
    /// Sense on `src`, update every agent, deposit trail into `dst`.
    Simulate { src: Slot, dst: Slot },
    /// Stencil-diffuse and decay `src` into `dst`.
    DiffuseDecay { src: Slot, dst: Slot },
    /// Splat a marker at every agent's cell into `dst`.
    CompositeAgents { dst: Slot },
    /// Draw `src` to the presentation surface; mutates no simulation state.
    Present { src: Slot },
}

/// Does dispatch `d` bind slot `s` as a read-only source?
pub open spec fn reads_slot(d: Dispatch, s: Slot) -> bool {
    match d {
        Dispatch::Blit { src, .. } => s == src,
        Dispatch::Clear { .. } => false,
        Dispatch::Simulate { src, .. } => s == src,
        Dispatch::DiffuseDecay { src, .. } => s == src,
        Dispatch::CompositeAgents { .. } => false,
        Dispatch::Present { src } => s == src,
    }
}

/// Does dispatch `d` bind slot `s` as a write-only destination?
pub open spec fn writes_slot(d: Dispatch, s: Slot) -> bool {
    match d {
        Dispatch::Blit { dst, .. } => s == dst,
        Dispatch::Clear { dst } => s == dst,
        Dispatch::Simulate { dst, .. } => s == dst,
        Dispatch::DiffuseDecay { dst, .. } => s == dst,
        Dispatch::CompositeAgents { dst } => s == dst,
        Dispatch::Present { .. } => false,
    }
}

/// No slot is bound as both read and write target within dispatch `d`.
pub open spec fn role_exclusive(d: Dispatch) -> bool {
    forall|s: Slot| !(reads_slot(d, s) && writes_slot(d, s))
}

/// Decides `role_exclusive` for a dispatch: the two-slot stages are exclusive
/// exactly when their source and destination slots differ, and the
/// single-binding stages always are.
pub fn check_role_exclusive(d: &Dispatch) -> (r: bool)
    ensures
        r == role_exclusive(*d),
{
    let r = match d {
        Dispatch::Blit { src, dst } => src != dst,
        Dispatch::Clear { .. } => true,
        Dispatch::Simulate { src, dst } => src != dst,
        Dispatch::DiffuseDecay { src, dst } => src != dst,
        Dispatch::CompositeAgents { .. } => true,
        Dispatch::Present { .. } => true,
    };
    proof {
        if r {
            assert forall|s: Slot| !(reads_slot(*d, s) && writes_slot(*d, s)) by {}
        } else {
            match *d {
                Dispatch::Blit { src, dst } => {
                    assert(reads_slot(*d, src) && writes_slot(*d, src));
                }
                Dispatch::Simulate { src, dst } => {
                    assert(reads_slot(*d, src) && writes_slot(*d, src));
                }
                Dispatch::DiffuseDecay { src, dst } => {
                    assert(reads_slot(*d, src) && writes_slot(*d, src));
                }
                _ => {}
            }
        }
    }
    r
}

} // verus!
