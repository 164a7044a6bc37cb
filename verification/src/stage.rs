//! The write sides of the compute stages: the simulate stage's trail
//! deposit, the full simulate pass over the agent store, and the agents-only
//! composite splat.
//!
//! Trail deposits accumulate additively (multiple agents writing the same
//! destination cell within one dispatch add up, saturating at the cell
//! type's maximum), which keeps deposit density meaningful; the composite
//! splat writes a plain marker.

use vstd::prelude::*;
use crate::agent::{Agent, SimConstants, spec_agent_step};
use crate::field::{Field, spec_idx};
use crate::fixed::FX_ONE;

verus! {

/// The marker intensity the agents-only composite writes at an agent's
/// cell: one full fixed-point unit.
pub const AGENT_MARKER: u32 = 65536;

/// Saturating addition on cell intensities.
pub open spec fn sat_add(a: int, b: int) -> int {
    if a + b > u32::MAX as int {
        u32::MAX as int
    } else {
        a + b
    }
}

/// The cell grid after one deposit of `wt` at cell `(cx, cy)`.
pub open spec fn spec_deposit(c: Seq<u32>, w: int, cx: int, cy: int, wt: int) -> Seq<u32> {
    c.update(spec_idx(w, cx, cy), sat_add(c[spec_idx(w, cx, cy)] as int, wt) as u32)
}

/// The stepped copy of one agent.
pub open spec fn spec_stepped_agent(
    a: Agent,
    tr: Seq<u32>,
    w: int,
    h: int,
    cs: SimConstants,
    delta: int,
) -> Agent {
    let st = spec_agent_step(a, tr, w, h, cs, delta);
    Agent { x: st.0 as i64, y: st.1 as i64, dx: st.2 as i64, dy: st.3 as i64 }
}

/// The destination grid after the first `k` agents' deposits, each at the
/// cell its own step against the staged trail `tr` lands in.
pub open spec fn spec_sim_deposits(
    dst: Seq<u32>,
    tr: Seq<u32>,
    agents: Seq<Agent>,
    k: nat,
    w: int,
    h: int,
    cs: SimConstants,
    delta: int,
) -> Seq<u32>
    decreases k,
{
    if k == 0 {
        dst
    } else {
        let prev = spec_sim_deposits(dst, tr, agents, (k - 1) as nat, w, h, cs, delta);
        let st = spec_agent_step(agents[k - 1], tr, w, h, cs, delta);
        spec_deposit(prev, w, st.4, st.5, cs.trail_weight as int)
    }
}

impl Field {
    /// Adds `wt` to the intensity at `(x, y)`, saturating at the largest
    /// cell value; every other cell keeps its value.
    pub fn deposit(&mut self, x: usize, y: usize, wt: u32)
        requires
            old(self).wf(),
            x < old(self).width,
            y < old(self).height,
        ensures
            final(self).wf(),
            final(self).same_dims(*old(self)),
            final(self).cells@ == spec_deposit(
                old(self).cells@,
                old(self).width as int,
                x as int,
                y as int,
                wt as int,
            ),
    {
        let v = self.get(x, y);
        let nv: u32 = if v > u32::MAX - wt {
            u32::MAX
        } else {
            v + wt
        };
        self.set(x, y, nv);
    }
}

/// The simulate pass: steps every agent against the staged trail `tr` and
/// deposits the trail weight at each agent's new cell into `dst`. Agents
/// sense only the read-only staged trail, never the destination, so the
/// update order cannot introduce a stencil hazard.
pub fn simulate(
    agents: &mut Vec<Agent>,
    tr: &Field,
    dst: &mut Field,
    cs: &SimConstants,
    delta: u32,
)
    requires
        tr.wf(),
        old(dst).wf(),
        old(dst).same_dims(*tr),
        cs.wf(),
        delta <= FX_ONE as u32,
        forall|i: int|
            0 <= i < old(agents)@.len() ==> (#[trigger] old(agents)@[i]).wf(
                tr.width as int,
                tr.height as int,
            ),
    ensures
        final(agents)@.len() == old(agents)@.len(),
        forall|i: int|
            0 <= i < old(agents)@.len() ==> #[trigger] final(agents)@[i] == spec_stepped_agent(
                old(agents)@[i],
                tr.cells@,
                tr.width as int,
                tr.height as int,
                *cs,
                delta as int,
            ),
        forall|i: int|
            0 <= i < final(agents)@.len() ==> (#[trigger] final(agents)@[i]).wf(
                tr.width as int,
                tr.height as int,
            ),
        final(dst).wf(),
        final(dst).same_dims(*old(dst)),
        final(dst).cells@ == spec_sim_deposits(
            old(dst).cells@,
            tr.cells@,
            old(agents)@,
            old(agents)@.len() as nat,
            tr.width as int,
            tr.height as int,
            *cs,
            delta as int,
        ),
{
    let n = agents.len();
    let mut i: usize = 0;
    while i < n
        invariant
            tr.wf(),
            dst.wf(),
            dst.same_dims(*old(dst)),
            dst.same_dims(*tr),
            cs.wf(),
            delta <= FX_ONE as u32,
            n == old(agents)@.len(),
            agents@.len() == n,
            i <= n,
            forall|j: int| i <= j < n ==> #[trigger] agents@[j] == old(agents)@[j],
            forall|j: int|
                0 <= j < n ==> (#[trigger] old(agents)@[j]).wf(tr.width as int, tr.height as int),
            forall|j: int|
                0 <= j < i ==> #[trigger] agents@[j] == spec_stepped_agent(
                    old(agents)@[j],
                    tr.cells@,
                    tr.width as int,
                    tr.height as int,
                    *cs,
                    delta as int,
                ),
            forall|j: int|
                0 <= j < i ==> (#[trigger] agents@[j]).wf(tr.width as int, tr.height as int),
            dst.cells@ == spec_sim_deposits(
                old(dst).cells@,
                tr.cells@,
                old(agents)@,
                i as nat,
                tr.width as int,
                tr.height as int,
                *cs,
                delta as int,
            ),
        decreases n - i,
    {
        let a = agents[i];
        let (na, cx, cy) = crate::agent::agent_step(&a, tr, cs, delta);
        agents.set(i, na);
        dst.deposit(cx, cy, cs.trail_weight);
        i = i + 1;
    }
}

/// The display grid after the first `k` agents' markers are splatted at
/// their current cells.
pub open spec fn spec_splat(c: Seq<u32>, agents: Seq<Agent>, k: nat, w: int) -> Seq<u32>
    decreases k,
{
    if k == 0 {
        c
    } else {
        let prev = spec_splat(c, agents, (k - 1) as nat, w);
        let a = agents[k - 1];
        prev.update(
            spec_idx(w, a.x as int / (FX_ONE as int), a.y as int / (FX_ONE as int)),
            AGENT_MARKER,
        )
    }
}

/// The agents-only composite: writes the marker intensity at every agent's
/// current cell into the display field. The agent store is read-only to
/// this stage.
pub fn composite_agents(agents: &Vec<Agent>, display: &mut Field)
    requires
        old(display).wf(),
        forall|i: int|
            0 <= i < agents@.len() ==> (#[trigger] agents@[i]).wf(
                old(display).width as int,
                old(display).height as int,
            ),
    ensures
        final(display).wf(),
        final(display).same_dims(*old(display)),
        final(display).cells@ == spec_splat(
            old(display).cells@,
            agents@,
            agents@.len() as nat,
            old(display).width as int,
        ),
{
    let n = agents.len();
    let mut i: usize = 0;
    while i < n
        invariant
            display.wf(),
            display.same_dims(*old(display)),
            n == agents@.len(),
            i <= n,
            forall|j: int|
                0 <= j < n ==> (#[trigger] agents@[j]).wf(
                    old(display).width as int,
                    old(display).height as int,
                ),
            display.cells@ == spec_splat(
                old(display).cells@,
                agents@,
                i as nat,
                old(display).width as int,
            ),
        decreases n - i,
    {
        let a = agents[i];
        proof {
            let s = 65536 as int;
            let w = display.width as int;
            let h = display.height as int;
            assert(0 <= a.x as int / s < w) by {
                vstd::arithmetic::div_mod::lemma_div_pos_is_pos(a.x as int, s);
                vstd::arithmetic::div_mod::lemma_div_is_ordered(a.x as int, w * s - 1, s);
                assert((w * s - 1) / s == w - 1) by {
                    vstd::arithmetic::div_mod::lemma_fundamental_div_mod_converse(
                        w * s - 1,
                        s,
                        w - 1,
                        s - 1,
                    );
                }
            }
            assert(0 <= a.y as int / s < h) by {
                vstd::arithmetic::div_mod::lemma_div_pos_is_pos(a.y as int, s);
                vstd::arithmetic::div_mod::lemma_div_is_ordered(a.y as int, h * s - 1, s);
                assert((h * s - 1) / s == h - 1) by {
                    vstd::arithmetic::div_mod::lemma_fundamental_div_mod_converse(
                        h * s - 1,
                        s,
                        h - 1,
                        s - 1,
                    );
                }
            }
        }
        let cx = (a.x as u64 / 65536) as usize;
        let cy = (a.y as u64 / 65536) as usize;
        display.set(cx, cy, AGENT_MARKER);
        i = i + 1;
    }
}

} // verus!
