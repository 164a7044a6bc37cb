//! The frame scheduler.
//!
//! One visual frame runs a configurable number of simulation sub-steps, each
//! the fixed dispatch sequence of `crate::plan`, then composites the result
//! for presentation. Every sub-step stages the trail, simulates onto the
//! staging copy, commits it back, diffuses and decays into the scratch slot
//! and commits that back, so that no dispatch ever binds a field slot as
//! both read and write target.

use vstd::prelude::*;
use crate::agent::{Agent, SimConstants, FrameParams, spec_agent_step, lemma_edge_clamp,
    spec_steer};
use crate::diffuse::{new_cell, cell_of, frac_of, keep_of, lemma_frac_range, lemma_wsum_range,
    lemma_new_cell_range, lemma_diffuse_total_non_increasing};
use crate::field::{Field, MAX_DIM, spec_idx, zero_grid, grid_total, lemma_idx_bounds,
    lemma_grid_index};
use crate::fixed::FX_ONE;
use crate::pool::FieldPool;
use crate::slot::Slot;
use crate::stage::{simulate, composite_agents, spec_sim_deposits, spec_stepped_agent, spec_splat,
    spec_deposit, sat_add};

verus! {

/// The setup-fatal configuration errors of scheduler construction. Once a
/// scheduler exists, the per-frame pipeline has no data-dependent failure
/// path.
#[derive(Clone, Copy, PartialEq, Eq, Structural, Debug)]
pub enum ConfigError {
    /// A field extent is zero or exceeds the largest accepted extent.
    BadDimensions,
    /// A simulation constant is out of its accepted range.
    BadConstants,
    /// An initial agent lies outside the field.
    AgentOutOfBounds,
}

/// The cell grid one diffuse-decay pass writes, as a whole.
pub open spec fn diffused_grid(c: Seq<u32>, w: int, h: int, f: int, keep: int) -> Seq<u32> {
    Seq::new((w * h) as nat, |i: int| new_cell(c, w, h, i % w, i / w, f, keep) as u32)
}

/// The trail after one full sub-step: stage, simulate (deposits land on the
/// staged copy), commit, diffuse and decay, commit.
pub open spec fn spec_substep_trail(
    tr: Seq<u32>,
    ag: Seq<Agent>,
    w: int,
    h: int,
    cs: SimConstants,
    delta: int,
) -> Seq<u32> {
    diffused_grid(
        spec_sim_deposits(tr, tr, ag, ag.len(), w, h, cs, delta),
        w,
        h,
        frac_of(cs.diffuse_rate as int, delta),
        keep_of(cs.decay_rate as int, delta),
    )
}

/// The agent store after one sub-step: every agent stepped against the
/// trail as staged at the start of the sub-step.
pub open spec fn spec_substep_agents(
    tr: Seq<u32>,
    ag: Seq<Agent>,
    w: int,
    h: int,
    cs: SimConstants,
    delta: int,
) -> Seq<Agent> {
    Seq::new(ag.len(), |i: int| spec_stepped_agent(ag[i], tr, w, h, cs, delta))
}

/// Trail and agent store after `k` sub-steps.
pub open spec fn spec_run_steps(
    tr: Seq<u32>,
    ag: Seq<Agent>,
    k: nat,
    w: int,
    h: int,
    cs: SimConstants,
    delta: int,
) -> (Seq<u32>, Seq<Agent>)
    decreases k,
{
    if k == 0 {
        (tr, ag)
    } else {
        let prev = spec_run_steps(tr, ag, (k - 1) as nat, w, h, cs, delta);
        (
            spec_substep_trail(prev.0, prev.1, w, h, cs, delta),
            spec_substep_agents(prev.0, prev.1, w, h, cs, delta),
        )
    }
}

/// What the composite pass writes into the display slot: either every
/// agent's marker splatted onto a cleared field, or the trail unchanged.
pub open spec fn spec_composed_display(
    tr: Seq<u32>,
    ag: Seq<Agent>,
    w: int,
    h: int,
    agents_only: bool,
) -> Seq<u32> {
    if agents_only {
        spec_splat(zero_grid(w, h), ag, ag.len(), w)
    } else {
        tr
    }
}

/// A field whose cells pointwise equal one diffuse-decay pass over `c`
/// holds exactly the `diffused_grid` of `c`.
pub proof fn lemma_cells_are_diffused_grid(
    d: Seq<u32>,
    c: Seq<u32>,
    w: int,
    h: int,
    f: int,
    keep: int,
)
    requires
        1 <= w,
        1 <= h,
        d.len() == w * h,
        forall|x: int, y: int|
            0 <= x < w && 0 <= y < h ==> #[trigger] d[spec_idx(w, x, y)] as int == new_cell(
                c,
                w,
                h,
                x,
                y,
                f,
                keep,
            ),
        0 <= f <= FX_ONE as int,
        0 <= keep <= FX_ONE as int,
    ensures
        d == diffused_grid(c, w, h, f, keep),
{
    let dg = diffused_grid(c, w, h, f, keep);
    assert forall|i: int| 0 <= i < d.len() implies d[i] == dg[i] by {
        lemma_grid_index(w, h, i);
        let x = i % w;
        let y = i / w;
        assert(d[spec_idx(w, x, y)] as int == new_cell(c, w, h, x, y, f, keep));
        assert(dg[i] == new_cell(c, w, h, x, y, f, keep) as u32);
        lemma_wsum_range(c, w, h, x, y);
        lemma_new_cell_range(
            cell_of(c, w)(x, y),
            crate::diffuse::wsum(c, w, h, x, y),
            f,
            keep,
        );
    }
    assert(d =~= dg);
}

/// A deposit of weight zero leaves the grid unchanged.
pub proof fn lemma_deposit_zero(c: Seq<u32>, w: int, cx: int, cy: int)
    requires
        0 <= spec_idx(w, cx, cy) < c.len(),
    ensures
        spec_deposit(c, w, cx, cy, 0) == c,
{
    let i = spec_idx(w, cx, cy);
    assert(sat_add(c[i] as int, 0) == c[i] as int);
    assert(c.update(i, c[i]) =~= c);
}

/// With the trail deposit weight set to zero, the whole simulate pass
/// leaves the destination grid unchanged.
pub proof fn lemma_sim_deposits_zero(
    dst: Seq<u32>,
    tr: Seq<u32>,
    ag: Seq<Agent>,
    k: nat,
    w: int,
    h: int,
    cs: SimConstants,
    delta: int,
)
    requires
        1 <= w,
        1 <= h,
        dst.len() == w * h,
        cs.trail_weight == 0,
        forall|i: int| 0 <= i < ag.len() ==> (#[trigger] ag[i]).wf(w, h),
        k <= ag.len(),
    ensures
        spec_sim_deposits(dst, tr, ag, k, w, h, cs, delta) == dst,
    decreases k,
{
    if k > 0 {
        lemma_sim_deposits_zero(dst, tr, ag, (k - 1) as nat, w, h, cs, delta);
        let st = spec_agent_step(ag[k - 1], tr, w, h, cs, delta);
        lemma_edge_clamp(ag[k - 1], tr, w, h, cs, delta);
        lemma_idx_bounds(w, h, st.4, st.5);
        lemma_deposit_zero(dst, w, st.4, st.5);
    }
}

/// The four named field slots, the agent store and the run's configuration:
/// the orchestrator of one visual frame.
pub struct Scheduler {
    pub pool: FieldPool,
    pub agents: Vec<Agent>,
    pub constants: SimConstants,
    pub steps_per_frame: usize,
    pub agents_only: bool,
}

/// The scheduler with its display-mode flag flipped and everything else
/// untouched.
pub open spec fn spec_toggled(s: Scheduler) -> Scheduler {
    Scheduler { agents_only: !s.agents_only, ..s }
}

/// Mode toggle idempotence: toggling the display mode twice returns to the
/// original state, and in particular to the original composited output for
/// an otherwise static field and agent configuration.
pub proof fn lemma_toggle_idempotent(s: Scheduler)
    ensures
        spec_toggled(spec_toggled(s)) == s,
        spec_composed_display(
            s.pool.trail.cells@,
            s.agents@,
            s.pool.width(),
            s.pool.height(),
            spec_toggled(spec_toggled(s)).agents_only,
        ) == spec_composed_display(
            s.pool.trail.cells@,
            s.agents@,
            s.pool.width(),
            s.pool.height(),
            s.agents_only,
        ),
{
}

impl Scheduler {
    /// Well-formedness: the pool's slots agree in extent, the constants are
    /// in range and every agent lies inside the field.
    pub open spec fn wf(self) -> bool {
        &&& self.pool.wf()
        &&& self.constants.wf()
        &&& forall|i: int|
            0 <= i < self.agents@.len() ==> (#[trigger] self.agents@[i]).wf(
                self.pool.width(),
                self.pool.height(),
            )
    }

    /// Validates the run's configuration and builds the scheduler with four
    /// zeroed field slots. Each rejected configuration is a setup-fatal
    /// error; dimensions are checked first, then constants, then agents.
    pub fn new(
        width: usize,
        height: usize,
        constants: SimConstants,
        steps_per_frame: usize,
        agents_only: bool,
        agents: Vec<Agent>,
    ) -> (r: Result<Scheduler, ConfigError>)
        ensures
            ({
                let dims_ok = 1 <= width <= MAX_DIM && 1 <= height <= MAX_DIM;
                let ag_ok = forall|i: int|
                    0 <= i < agents@.len() ==> (#[trigger] agents@[i]).wf(
                        width as int,
                        height as int,
                    );
                &&& (r is Ok <==> dims_ok && constants.wf() && ag_ok)
                &&& !dims_ok ==> r == Result::<Scheduler, ConfigError>::Err(
                    ConfigError::BadDimensions,
                )
                &&& dims_ok && !constants.wf() ==> r == Result::<Scheduler, ConfigError>::Err(
                    ConfigError::BadConstants,
                )
                &&& dims_ok && constants.wf() && !ag_ok ==> r == Result::<
                    Scheduler,
                    ConfigError,
                >::Err(ConfigError::AgentOutOfBounds)
            }),
            r matches Ok(s) ==> ({
                &&& s.wf()
                &&& s.pool.width() == width
                &&& s.pool.height() == height
                &&& s.agents@ == agents@
                &&& s.constants == constants
                &&& s.steps_per_frame == steps_per_frame
                &&& s.agents_only == agents_only
                &&& forall|sl: Slot| (#[trigger] s.pool.slot(sl)).cells@ == zero_grid(
                    width as int,
                    height as int,
                )
            }),
    {
        if !(1 <= width && width <= MAX_DIM && 1 <= height && height <= MAX_DIM) {
            return Err(ConfigError::BadDimensions);
        }
        let cs = &constants;
        let ok_constants = cs.turn_cos >= -65536 && cs.turn_cos <= 65536 && cs.turn_sin >= -65536
            && cs.turn_sin <= 65536 && cs.sensor_cos >= -65536 && cs.sensor_cos <= 65536
            && cs.sensor_sin >= -65536 && cs.sensor_sin <= 65536 && cs.move_speed
            <= 0x4000_0000u32 && cs.sensor_offset <= 0x4000_0000u32 && cs.sensor_size <= 4096;
        if !ok_constants {
            return Err(ConfigError::BadConstants);
        }
        proof {
            assert(constants.wf());
        }
        let limx: i64 = (width as i64) * 65536;
        let limy: i64 = (height as i64) * 65536;
        let n = agents.len();
        let mut i: usize = 0;
        while i < n
            invariant
                constants.wf(),
                n == agents@.len(),
                i <= n,
                limx as int == width as int * (FX_ONE as int),
                limy as int == height as int * (FX_ONE as int),
                1 <= width <= MAX_DIM,
                1 <= height <= MAX_DIM,
                forall|j: int|
                    0 <= j < i ==> (#[trigger] agents@[j]).wf(width as int, height as int),
            decreases n - i,
        {
            let a = agents[i];
            if !(a.x >= 0 && a.x < limx && a.y >= 0 && a.y < limy && a.dx >= -65536 && a.dx
                <= 65536 && a.dy >= -65536 && a.dy <= 65536) {
                proof {
                    assert(!agents@[i as int].wf(width as int, height as int));
                    assert(0 <= i as int && (i as int) < agents@.len());
                    assert(!(forall|j: int|
                        0 <= j < agents@.len() ==> (#[trigger] agents@[j]).wf(
                            width as int,
                            height as int,
                        )));
                }
                return Err(ConfigError::AgentOutOfBounds);
            }
            i = i + 1;
        }
        Ok(
            Scheduler {
                pool: FieldPool::new(width, height),
                agents,
                constants,
                steps_per_frame,
                agents_only,
            },
        )
    }

    /// Flips the display mode. The toggle takes effect on the next visual
    /// frame; nothing else changes.
    pub fn swap_buffers(&mut self)
        ensures
            *final(self) == spec_toggled(*old(self)),
    {
        self.agents_only = !self.agents_only;
    }

    /// The presentable output: the display slot, which the present stage
    /// draws without mutating any simulation state.
    pub fn display(&self) -> (r: &Field)
        ensures
            *r == self.pool.display,
    {
        &self.pool.display
    }

    /// Runs one simulation sub-step: the five dispatches of the sub-step
    /// plan, in issue order.
    pub fn run_substep(&mut self, params: FrameParams)
        requires
            old(self).wf(),
            params.wf(),
        ensures
            final(self).wf(),
            final(self).pool.width() == old(self).pool.width(),
            final(self).pool.height() == old(self).pool.height(),
            final(self).pool.trail.cells@ == spec_substep_trail(
                old(self).pool.trail.cells@,
                old(self).agents@,
                old(self).pool.width(),
                old(self).pool.height(),
                old(self).constants,
                params.delta as int,
            ),
            final(self).agents@ == spec_substep_agents(
                old(self).pool.trail.cells@,
                old(self).agents@,
                old(self).pool.width(),
                old(self).pool.height(),
                old(self).constants,
                params.delta as int,
            ),
            final(self).pool.display == old(self).pool.display,
            final(self).constants == old(self).constants,
            final(self).steps_per_frame == old(self).steps_per_frame,
            final(self).agents_only == old(self).agents_only,
    {
        let ghost tr0 = self.pool.trail.cells@;
        let ghost ag0 = self.agents@;
        let ghost wi = self.pool.width();
        let ghost hi = self.pool.height();
        let ghost cs = self.constants;
        // blit(Trail -> TrailStaging): stage the authoritative trail
        self.pool.blit(Slot::Trail, Slot::TrailStaging);
        proof {
            assert(self.pool.slot(Slot::Display) == old(self).pool.slot(Slot::Display));
            assert(self.pool.slot(Slot::Trail) == old(self).pool.slot(Slot::Trail));
        }
        // Simulate: read Trail, write TrailStaging
        simulate(
            &mut self.agents,
            &self.pool.trail,
            &mut self.pool.trail_staging,
            &self.constants,
            params.delta,
        );
        proof {
            assert(self.pool.trail_staging.cells@ == spec_sim_deposits(
                tr0,
                tr0,
                ag0,
                ag0.len(),
                wi,
                hi,
                cs,
                params.delta as int,
            ));
            assert(self.agents@ =~= spec_substep_agents(
                tr0,
                ag0,
                wi,
                hi,
                cs,
                params.delta as int,
            ));
        }
        let ghost pool_before = self.pool;
        // blit(TrailStaging -> Trail): commit the deposits
        self.pool.blit(Slot::TrailStaging, Slot::Trail);
        proof {
            assert(self.pool.slot(Slot::Display) == pool_before.slot(Slot::Display));
        }
        // DiffuseDecay: read Trail, write Diffused
        let d = self.pool.trail.diffuse_decay(
            self.constants.diffuse_rate,
            self.constants.decay_rate,
            params.delta,
        );
        proof {
            lemma_frac_range(cs.diffuse_rate as int, params.delta as int);
            lemma_frac_range(cs.decay_rate as int, params.delta as int);
            let ff = frac_of(cs.diffuse_rate as int, params.delta as int);
            let kk = keep_of(cs.decay_rate as int, params.delta as int);
            let cur = self.pool.trail.cells@;
            assert(d.width as int == wi && d.height as int == hi);
            assert(d.cells@.len() == wi * hi);
            assert forall|x: int, y: int|
                0 <= x < wi && 0 <= y < hi implies #[trigger] d.cells@[spec_idx(wi, x, y)] as int
                == new_cell(cur, wi, hi, x, y, ff, kk) by {
                assert(d.at(x, y) as int == new_cell(cur, wi, hi, x, y, ff, kk));
            }
            lemma_cells_are_diffused_grid(d.cells@, cur, wi, hi, ff, kk);
        }
        self.pool.diffused = d;
        let ghost pool_mid = self.pool;
        // blit(Diffused -> Trail): commit the diffused field
        self.pool.blit(Slot::Diffused, Slot::Trail);
        proof {
            assert(self.pool.slot(Slot::Display) == pool_mid.slot(Slot::Display));
            assert(self.pool.slot(Slot::Trail).cells@ == pool_mid.slot(Slot::Diffused).cells@);
        }
    }

    /// The composite pass: clear-and-splat the agents, or copy the trail
    /// into the display slot, as the display mode selects.
    pub fn composite(&mut self)
        requires
            old(self).wf(),
        ensures
            final(self).wf(),
            final(self).pool.width() == old(self).pool.width(),
            final(self).pool.height() == old(self).pool.height(),
            final(self).pool.display.cells@ == spec_composed_display(
                old(self).pool.trail.cells@,
                old(self).agents@,
                old(self).pool.width(),
                old(self).pool.height(),
                old(self).agents_only,
            ),
            final(self).pool.trail == old(self).pool.trail,
            final(self).agents@ == old(self).agents@,
            final(self).constants == old(self).constants,
            final(self).steps_per_frame == old(self).steps_per_frame,
            final(self).agents_only == old(self).agents_only,
    {
        if self.agents_only {
            // Clear: write Display
            let w = self.pool.trail.width;
            let h = self.pool.trail.height;
            self.pool.display = Field::new(w, h);
            // CompositeAgents: read the agent store, write Display
            composite_agents(&self.agents, &mut self.pool.display);
        } else {
            // blit(Trail -> Display)
            self.pool.blit(Slot::Trail, Slot::Display);
            proof {
                assert(self.pool.slot(Slot::Trail) == old(self).pool.slot(Slot::Trail));
                assert(self.pool.slot(Slot::Display).cells@ == old(self).pool.slot(
                    Slot::Trail,
                ).cells@);
            }
        }
    }

    /// Runs one visual frame: `steps_per_frame` sub-steps, the composite
    /// pass, and presentation (which mutates nothing). All sub-steps are
    /// submitted as one batch and are not individually observable.
    pub fn run_frame(&mut self, params: FrameParams)
        requires
            old(self).wf(),
            params.wf(),
        ensures
            final(self).wf(),
            final(self).pool.width() == old(self).pool.width(),
            final(self).pool.height() == old(self).pool.height(),
            ({
                let end = spec_run_steps(
                    old(self).pool.trail.cells@,
                    old(self).agents@,
                    old(self).steps_per_frame as nat,
                    old(self).pool.width(),
                    old(self).pool.height(),
                    old(self).constants,
                    params.delta as int,
                );
                &&& final(self).pool.trail.cells@ == end.0
                &&& final(self).agents@ == end.1
                &&& final(self).pool.display.cells@ == spec_composed_display(
                    end.0,
                    end.1,
                    old(self).pool.width(),
                    old(self).pool.height(),
                    old(self).agents_only,
                )
            }),
            final(self).constants == old(self).constants,
            final(self).steps_per_frame == old(self).steps_per_frame,
            final(self).agents_only == old(self).agents_only,
    {
        let ghost tr0 = self.pool.trail.cells@;
        let ghost ag0 = self.agents@;
        let ghost wi = self.pool.width();
        let ghost hi = self.pool.height();
        let ghost cs = self.constants;
        let steps = self.steps_per_frame;
        let mut i: usize = 0;
        while i < steps
            invariant
                self.wf(),
                params.wf(),
                i <= steps,
                self.pool.width() == wi,
                self.pool.height() == hi,
                self.constants == cs,
                self.steps_per_frame == steps,
                self.agents_only == old(self).agents_only,
                (self.pool.trail.cells@, self.agents@) == spec_run_steps(
                    tr0,
                    ag0,
                    i as nat,
                    wi,
                    hi,
                    cs,
                    params.delta as int,
                ),
            decreases steps - i,
        {
            self.run_substep(params);
            i = i + 1;
        }
        self.composite();
    }
}

/// Conservation under a zero deposit weight: with the trail deposit weight
/// set to zero, one sub-step never increases the trail's total intensity
/// (decay and rounding only ever lose mass).
pub proof fn lemma_substep_total_non_increasing(
    tr: Seq<u32>,
    ag: Seq<Agent>,
    w: int,
    h: int,
    cs: SimConstants,
    delta: int,
)
    requires
        1 <= w,
        1 <= h,
        tr.len() == w * h,
        cs.trail_weight == 0,
        delta >= 0,
        forall|i: int| 0 <= i < ag.len() ==> (#[trigger] ag[i]).wf(w, h),
    ensures
        grid_total(spec_substep_trail(tr, ag, w, h, cs, delta), w, h) <= grid_total(tr, w, h),
{
    lemma_sim_deposits_zero(tr, tr, ag, ag.len(), w, h, cs, delta);
    let f = frac_of(cs.diffuse_rate as int, delta);
    let keep = keep_of(cs.decay_rate as int, delta);
    lemma_frac_range(cs.diffuse_rate as int, delta);
    lemma_frac_range(cs.decay_rate as int, delta);
    let dg = diffused_grid(tr, w, h, f, keep);
    assert forall|x: int, y: int|
        0 <= x < w && 0 <= y < h implies #[trigger] cell_of(dg, w)(x, y) == new_cell(
        tr,
        w,
        h,
        x,
        y,
        f,
        keep,
    ) by {
        lemma_idx_bounds(w, h, x, y);
        lemma_grid_index(w, h, spec_idx(w, x, y));
        assert(spec_idx(w, x, y) % w == x && spec_idx(w, x, y) / w == y) by {
            vstd::arithmetic::div_mod::lemma_fundamental_div_mod_converse(y * w + x, w, y, x);
        }
        lemma_wsum_range(tr, w, h, x, y);
        lemma_new_cell_range(cell_of(tr, w)(x, y), crate::diffuse::wsum(tr, w, h, x, y), f, keep);
    }
    lemma_diffuse_total_non_increasing(tr, dg, w, h, f, keep);
}

/// Agents stay well-formed across a sub-step: a stepped agent is never lost
/// or left out of bounds.
pub proof fn lemma_stepped_agent_wf(
    a: Agent,
    tr: Seq<u32>,
    w: int,
    h: int,
    cs: SimConstants,
    delta: int,
)
    requires
        1 <= w <= MAX_DIM,
        1 <= h <= MAX_DIM,
        a.wf(w, h),
    ensures
        spec_stepped_agent(a, tr, w, h, cs, delta).wf(w, h),
{
    let s = FX_ONE as int;
    lemma_edge_clamp(a, tr, w, h, cs, delta);
    let dir = spec_steer(a, tr, w, h, cs);
    assert(-s <= dir.0 <= s && -s <= dir.1 <= s);
    let r = spec_agent_step(a, tr, w, h, cs, delta);
    assert(r.2 == dir.0 || r.2 == -dir.0);
    assert(r.3 == dir.1 || r.3 == -dir.1);
    assert(w * s <= 0x10000000) by (nonlinear_arith)
        requires
            1 <= w <= 4096,
            s == 65536,
    ;
    assert(h * s <= 0x10000000) by (nonlinear_arith)
        requires
            1 <= h <= 4096,
            s == 65536,
    ;
}

/// Conservation under a zero deposit weight over a whole visual frame: the
/// trail's total intensity is non-increasing across every sub-step of the
/// frame.
pub proof fn lemma_frame_total_non_increasing(
    tr: Seq<u32>,
    ag: Seq<Agent>,
    k: nat,
    w: int,
    h: int,
    cs: SimConstants,
    delta: int,
)
    requires
        1 <= w <= MAX_DIM,
        1 <= h <= MAX_DIM,
        tr.len() == w * h,
        cs.trail_weight == 0,
        delta >= 0,
        forall|i: int| 0 <= i < ag.len() ==> (#[trigger] ag[i]).wf(w, h),
    ensures
        grid_total(spec_run_steps(tr, ag, k, w, h, cs, delta).0, w, h) <= grid_total(tr, w, h),
        spec_run_steps(tr, ag, k, w, h, cs, delta).0.len() == w * h,
        forall|i: int|
            0 <= i < spec_run_steps(tr, ag, k, w, h, cs, delta).1.len() ==> (
            #[trigger] spec_run_steps(tr, ag, k, w, h, cs, delta).1[i]).wf(w, h),
    decreases k,
{
    if k > 0 {
        lemma_frame_total_non_increasing(tr, ag, (k - 1) as nat, w, h, cs, delta);
        let prev = spec_run_steps(tr, ag, (k - 1) as nat, w, h, cs, delta);
        lemma_substep_total_non_increasing(prev.0, prev.1, w, h, cs, delta);
        let cur = spec_run_steps(tr, ag, k, w, h, cs, delta);
        assert(cur.0 == spec_substep_trail(prev.0, prev.1, w, h, cs, delta));
        assert(cur.0.len() == w * h) by {
            assert(diffused_grid(
                spec_sim_deposits(prev.0, prev.0, prev.1, prev.1.len(), w, h, cs, delta),
                w,
                h,
                frac_of(cs.diffuse_rate as int, delta),
                keep_of(cs.decay_rate as int, delta),
            ).len() == w * h);
        }
        assert forall|i: int| 0 <= i < cur.1.len() implies (#[trigger] cur.1[i]).wf(w, h) by {
            lemma_stepped_agent_wf(prev.1[i], prev.0, w, h, cs, delta);
        }
    }
}

} // verus!
