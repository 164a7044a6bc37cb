//! The frame scheduler's dispatch plan.
//!
//! One visual frame is a fixed, strictly ordered sequence of dispatches: a
//! configurable number of simulation sub-steps, then one composite pass, then
//! presentation. Every "update in place" of the trail goes through the pool's
//! staging slots, so that no dispatch ever binds a slot as both read and
//! write target.

use vstd::prelude::*;
use crate::slot::{Dispatch, Slot, reads_slot, writes_slot, role_exclusive};

verus! {

/// The dispatches the scheduler issues for one simulation sub-step:
/// stage the trail, simulate onto the staging copy, commit it back, diffuse
/// and decay into the scratch slot, and commit that back.
///
/// The leading blit seeds `TrailStaging` with the trail so that cells the
/// simulate dispatch does not write keep their trail value; the trail itself
/// is bound to that dispatch read-only.
pub open spec fn spec_substep_ops() -> Seq<Dispatch> {
    seq![
        Dispatch::Blit { src: Slot::Trail, dst: Slot::TrailStaging },
        Dispatch::Simulate { src: Slot::Trail, dst: Slot::TrailStaging },
        Dispatch::Blit { src: Slot::TrailStaging, dst: Slot::Trail },
        Dispatch::DiffuseDecay { src: Slot::Trail, dst: Slot::Diffused },
        Dispatch::Blit { src: Slot::Diffused, dst: Slot::Trail },
    ]
}

/// The first `steps` sub-steps of a frame, in issue order.
pub open spec fn spec_substeps(steps: nat) -> Seq<Dispatch>
    decreases steps,
{
    if steps == 0 {
        Seq::empty()
    } else {
        spec_substeps((steps - 1) as nat) + spec_substep_ops()
    }
}

/// The composite pass: either clear the display and splat every agent onto
/// it, or copy the trail into the display unchanged.
pub open spec fn spec_compose_ops(agents_only: bool) -> Seq<Dispatch> {
    if agents_only {
        seq![
            Dispatch::Clear { dst: Slot::Display },
            Dispatch::CompositeAgents { dst: Slot::Display },
        ]
    } else {
        seq![Dispatch::Blit { src: Slot::Trail, dst: Slot::Display }]
    }
}

/// The full plan of one visual frame.
pub open spec fn spec_frame_plan(steps: nat, agents_only: bool) -> Seq<Dispatch> {
    spec_substeps(steps) + spec_compose_ops(agents_only) + seq![
        Dispatch::Present { src: Slot::Display },
    ]
}

/// Is `d` one of the dispatches the scheduler's vocabulary contains?
pub open spec fn scheduler_op(d: Dispatch) -> bool {
    ||| d == (Dispatch::Blit { src: Slot::Trail, dst: Slot::TrailStaging })
    ||| d == (Dispatch::Simulate { src: Slot::Trail, dst: Slot::TrailStaging })
    ||| d == (Dispatch::Blit { src: Slot::TrailStaging, dst: Slot::Trail })
    ||| d == (Dispatch::DiffuseDecay { src: Slot::Trail, dst: Slot::Diffused })
    ||| d == (Dispatch::Blit { src: Slot::Diffused, dst: Slot::Trail })
    ||| d == (Dispatch::Clear { dst: Slot::Display })
    ||| d == (Dispatch::CompositeAgents { dst: Slot::Display })
    ||| d == (Dispatch::Blit { src: Slot::Trail, dst: Slot::Display })
    ||| d == (Dispatch::Present { src: Slot::Display })
}

/// Every dispatch of every frame plan is drawn from the scheduler's
/// vocabulary.
pub proof fn lemma_plan_ops_are_scheduler_ops(steps: nat, agents_only: bool)
    ensures
        forall|i: int|
            0 <= i < spec_frame_plan(steps, agents_only).len() ==> scheduler_op(
                #[trigger] spec_frame_plan(steps, agents_only)[i],
            ),
    decreases steps,
{
    if steps > 0 {
        lemma_plan_ops_are_scheduler_ops((steps - 1) as nat, agents_only);
        assert forall|i: int|
            0 <= i < spec_frame_plan(steps, agents_only).len() implies scheduler_op(
            #[trigger] spec_frame_plan(steps, agents_only)[i],
        ) by {
            let prev = spec_frame_plan((steps - 1) as nat, agents_only);
            let tail = spec_compose_ops(agents_only) + seq![
                Dispatch::Present { src: Slot::Display },
            ];
            if i < spec_substeps((steps - 1) as nat).len() {
                assert(spec_frame_plan(steps, agents_only)[i] == prev[i]);
            } else if i < spec_substeps(steps).len() {
                let j = i - spec_substeps((steps - 1) as nat).len();
                assert(spec_frame_plan(steps, agents_only)[i] == spec_substep_ops()[j]);
            } else {
                let j = i - spec_substeps(steps).len();
                let jprev = j + spec_substeps((steps - 1) as nat).len();
                assert(spec_frame_plan(steps, agents_only)[i] == tail[j]);
                assert(prev[jprev] == tail[j]);
            }
        }
    }
}

/// Role exclusivity of the generated dispatch plan: for every dispatch the
/// scheduler ever issues, no field slot is bound as both read and write
/// target in that dispatch.
pub proof fn lemma_plan_role_exclusive(steps: nat, agents_only: bool)
    ensures
        forall|i: int|
            0 <= i < spec_frame_plan(steps, agents_only).len() ==> role_exclusive(
                #[trigger] spec_frame_plan(steps, agents_only)[i],
            ),
{
    lemma_plan_ops_are_scheduler_ops(steps, agents_only);
    assert forall|i: int|
        0 <= i < spec_frame_plan(steps, agents_only).len() implies role_exclusive(
        #[trigger] spec_frame_plan(steps, agents_only)[i],
    ) by {
        let d = spec_frame_plan(steps, agents_only)[i];
        assert(scheduler_op(d));
        assert forall|s: Slot| !(reads_slot(d, s) && writes_slot(d, s)) by {}
    }
}

/// Builds the dispatch plan of one visual frame: `steps` sub-steps, then the
/// composite pass selected by `agents_only`, then presentation.
pub fn frame_plan(steps: usize, agents_only: bool) -> (plan: Vec<Dispatch>)
    ensures
        plan@ == spec_frame_plan(steps as nat, agents_only),
{
    let mut plan: Vec<Dispatch> = Vec::new();
    let mut i: usize = 0;
    while i < steps
        invariant
            i <= steps,
            plan@ == spec_substeps(i as nat),
        decreases steps - i,
    {
        plan.push(Dispatch::Blit { src: Slot::Trail, dst: Slot::TrailStaging });
        plan.push(Dispatch::Simulate { src: Slot::Trail, dst: Slot::TrailStaging });
        plan.push(Dispatch::Blit { src: Slot::TrailStaging, dst: Slot::Trail });
        plan.push(Dispatch::DiffuseDecay { src: Slot::Trail, dst: Slot::Diffused });
        plan.push(Dispatch::Blit { src: Slot::Diffused, dst: Slot::Trail });
        i = i + 1;
        proof {
            assert(plan@ =~= spec_substeps(i as nat));
        }
    }
    if agents_only {
        plan.push(Dispatch::Clear { dst: Slot::Display });
        plan.push(Dispatch::CompositeAgents { dst: Slot::Display });
    } else {
        plan.push(Dispatch::Blit { src: Slot::Trail, dst: Slot::Display });
    }
    plan.push(Dispatch::Present { src: Slot::Display });
    proof {
        assert(plan@ =~= spec_frame_plan(steps as nat, agents_only));
    }
    plan
}

} // verus!
