use slime::agent::{Agent, FrameParams, SimConstants};
use slime::engine::{ConfigError, Scheduler};
use slime::plan::frame_plan;
use slime::slot::{check_role_exclusive, Dispatch, Slot};

const FX: i64 = 65536;

fn quiet_constants() -> SimConstants {
    SimConstants {
        move_speed: 10 * 65536,
        turn_cos: FX,
        turn_sin: 0,
        sensor_cos: FX,
        sensor_sin: 0,
        sensor_offset: 20 * 65536,
        sensor_size: 1,
        trail_weight: 65536,
        decay_rate: 0,
        diffuse_rate: 0,
    }
}

#[test]
fn every_dispatch_of_every_plan_is_role_exclusive() {
    for steps in 0..5usize {
        for agents_only in [false, true] {
            let plan = frame_plan(steps, agents_only);
            for d in &plan {
                assert!(check_role_exclusive(d));
            }
        }
    }
}

#[test]
fn plan_has_the_documented_shape() {
    let plan = frame_plan(2, false);
    assert_eq!(plan.len(), 2 * 5 + 1 + 1);
    assert_eq!(plan[0], Dispatch::Blit { src: Slot::Trail, dst: Slot::TrailStaging });
    assert_eq!(plan[1], Dispatch::Simulate { src: Slot::Trail, dst: Slot::TrailStaging });
    assert_eq!(plan[2], Dispatch::Blit { src: Slot::TrailStaging, dst: Slot::Trail });
    assert_eq!(plan[3], Dispatch::DiffuseDecay { src: Slot::Trail, dst: Slot::Diffused });
    assert_eq!(plan[4], Dispatch::Blit { src: Slot::Diffused, dst: Slot::Trail });
    assert_eq!(plan[10], Dispatch::Blit { src: Slot::Trail, dst: Slot::Display });
    assert_eq!(plan[11], Dispatch::Present { src: Slot::Display });

    let plan = frame_plan(1, true);
    assert_eq!(plan.len(), 5 + 2 + 1);
    assert_eq!(plan[5], Dispatch::Clear { dst: Slot::Display });
    assert_eq!(plan[6], Dispatch::CompositeAgents { dst: Slot::Display });
    assert_eq!(plan[7], Dispatch::Present { src: Slot::Display });
}

#[test]
fn self_blit_is_not_role_exclusive() {
    assert!(!check_role_exclusive(&Dispatch::Blit { src: Slot::Trail, dst: Slot::Trail }));
    assert!(check_role_exclusive(&Dispatch::Clear { dst: Slot::Display }));
    assert!(check_role_exclusive(&Dispatch::Present { src: Slot::Display }));
}

#[test]
fn one_frame_moves_the_agent_and_deposits_at_its_cell() {
    // field 100 x 100, one agent at (50, 50) heading along +x, move speed
    // 10 cells per second, delta time a tenth of a second, one sub-step,
    // deposit weight one, no decay, no diffusion
    let agent = Agent { x: 50 * FX, y: 50 * FX, dx: FX, dy: 0 };
    let mut s = Scheduler::new(100, 100, quiet_constants(), 1, false, vec![agent]).unwrap();
    let params = FrameParams { elapsed_micros: 0, delta: 6553 };
    s.run_frame(params);
    // the agent moved one cell's distance along its heading
    assert_eq!(s.agents[0].x, 50 * FX + 65530);
    assert_eq!(s.agents[0].y, 50 * FX);
    assert_eq!(s.agents[0].dx, FX);
    assert_eq!(s.agents[0].dy, 0);
    // its deposit landed at its new integer cell with the full weight
    assert_eq!(s.pool.trail.get(50, 50), 65536);
    // diffusion and decay at rate zero left every other cell at zero
    assert_eq!(s.pool.trail.total_intensity(), 65536);
    assert_eq!(s.pool.trail.get(51, 50), 0);
    assert_eq!(s.pool.trail.get(49, 50), 0);
    // the display holds the composited trail
    assert_eq!(s.pool.display.get(50, 50), 65536);
    assert_eq!(s.pool.display.total_intensity(), 65536);
}

#[test]
fn zero_deposit_weight_never_gains_mass() {
    let cs = SimConstants {
        trail_weight: 0,
        decay_rate: 49152,
        diffuse_rate: 32768,
        ..quiet_constants()
    };
    let agents = vec![
        Agent { x: 4 * FX, y: 4 * FX, dx: FX, dy: 0 },
        Agent { x: 2 * FX, y: 6 * FX, dx: 0, dy: -FX },
    ];
    let mut s = Scheduler::new(8, 8, cs, 1, false, agents).unwrap();
    s.pool.trail.set(3, 3, 5 * 65536);
    s.pool.trail.set(4, 4, 65536);
    s.pool.trail.set(0, 7, 3 * 65536);
    let params = FrameParams { elapsed_micros: 0, delta: 328 };
    let mut previous = s.pool.trail.total_intensity();
    for _ in 0..5 {
        s.run_substep(params);
        let current = s.pool.trail.total_intensity();
        assert!(current <= previous);
        previous = current;
    }
}

#[test]
fn toggling_the_display_mode_twice_restores_the_output() {
    let agents = vec![Agent { x: 3 * FX, y: 2 * FX, dx: FX, dy: 0 }];
    let mut s = Scheduler::new(8, 8, quiet_constants(), 1, false, agents).unwrap();
    s.pool.trail.set(5, 5, 123456);
    s.pool.trail.set(3, 2, 777);
    // the composited output in the current mode
    s.composite();
    let first = s.pool.display.cells.clone();
    // toggling twice returns to the original composited output
    s.swap_buffers();
    s.swap_buffers();
    s.composite();
    assert_eq!(s.pool.display.cells, first);
    // one toggle selects the other composition
    s.swap_buffers();
    s.composite();
    assert_ne!(s.pool.display.cells, first);
    // agents-only mode: a cleared display with the marker at the agent cell
    assert_eq!(s.pool.display.get(3, 2), 65536);
    assert_eq!(s.pool.display.get(5, 5), 0);
}

#[test]
fn display_mode_selects_the_composition() {
    let agents = vec![Agent { x: FX, y: FX, dx: 0, dy: FX }];
    let mut s = Scheduler::new(4, 4, quiet_constants(), 1, true, agents).unwrap();
    s.pool.trail.set(2, 2, 42);
    s.composite();
    // agents only: the trail is not shown
    assert_eq!(s.pool.display.get(2, 2), 0);
    assert_eq!(s.pool.display.get(1, 1), 65536);
}

#[test]
fn bad_dimensions_are_a_setup_error() {
    let r = Scheduler::new(0, 10, quiet_constants(), 1, false, vec![]);
    assert!(matches!(r, Err(ConfigError::BadDimensions)));
    let r = Scheduler::new(10, 5000, quiet_constants(), 1, false, vec![]);
    assert!(matches!(r, Err(ConfigError::BadDimensions)));
}

#[test]
fn bad_constants_are_a_setup_error() {
    let cs = SimConstants { sensor_size: 4097, ..quiet_constants() };
    let r = Scheduler::new(10, 10, cs, 1, false, vec![]);
    assert!(matches!(r, Err(ConfigError::BadConstants)));
    let cs = SimConstants { turn_cos: FX + 1, ..quiet_constants() };
    let r = Scheduler::new(10, 10, cs, 1, false, vec![]);
    assert!(matches!(r, Err(ConfigError::BadConstants)));
}

#[test]
fn an_out_of_bounds_agent_is_a_setup_error() {
    let agents = vec![Agent { x: 10 * FX, y: 0, dx: FX, dy: 0 }];
    let r = Scheduler::new(10, 10, quiet_constants(), 1, false, agents);
    assert!(matches!(r, Err(ConfigError::AgentOutOfBounds)));
}

#[test]
fn multiple_substeps_run_within_one_frame() {
    let agent = Agent { x: 10 * FX, y: 10 * FX, dx: FX, dy: 0 };
    let mut s = Scheduler::new(20, 20, quiet_constants(), 3, false, vec![agent]).unwrap();
    let params = FrameParams { elapsed_micros: 0, delta: 6553 };
    s.run_frame(params);
    // three sub-steps of one cell's distance each
    assert_eq!(s.agents[0].x, 10 * FX + 3 * 65530);
    // three deposits along the way
    assert_eq!(s.pool.trail.total_intensity(), 3 * 65536);
}
