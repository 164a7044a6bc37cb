use slime::agent::{agent_step, rotate, sensor_sum, Agent, SimConstants};
use slime::field::Field;
use slime::spawn::{heading_from_bits, isqrt, random_heading, spawn_agents};

const FX: i64 = 65536;

fn constants(move_speed: u32) -> SimConstants {
    SimConstants {
        move_speed,
        turn_cos: FX,
        turn_sin: 0,
        sensor_cos: FX,
        sensor_sin: 0,
        sensor_offset: 20 * 65536,
        sensor_size: 1,
        trail_weight: 65536,
        decay_rate: 0,
        diffuse_rate: 0,
    }
}

#[test]
fn rotate_by_identity_keeps_the_heading() {
    assert_eq!(rotate(FX, 0, FX, 0), (FX, 0));
    assert_eq!(rotate(0, -FX, FX, 0), (0, -FX));
}

#[test]
fn rotate_by_quarter_turn_swaps_components() {
    // cos 0, sin 1
    assert_eq!(rotate(FX, 0, 0, FX), (0, FX));
    assert_eq!(rotate(0, FX, 0, FX), (-FX, 0));
}

#[test]
fn rotate_by_eighth_turn_is_exact_on_the_axis() {
    // cos and sin of an eighth turn in fixed point
    let c: i64 = 46341;
    assert_eq!(rotate(FX, 0, c, c), (c, c));
}

#[test]
fn sensor_sum_reads_the_clamped_window() {
    let mut f = Field::new(5, 5);
    f.set(0, 0, 10);
    f.set(1, 0, 20);
    f.set(0, 1, 30);
    f.set(3, 3, 1000);
    // window of half-width 1 about the corner clamps to the four cells
    // (0..=1, 0..=1); the clamped coordinates repeat the corner row/column
    assert_eq!(sensor_sum(&f, 0, 0, 1), 4 * 10 + 2 * 20 + 2 * 30);
    // interior window about (1, 1) sees the three corner cells only
    assert_eq!(sensor_sum(&f, 1, 1, 1), 10 + 20 + 30);
    assert_eq!(sensor_sum(&f, 3, 3, 0), 1000);
}

#[test]
fn straight_march_on_a_silent_field() {
    let f = Field::new(100, 100);
    let a = Agent { x: 50 * FX, y: 50 * FX, dx: FX, dy: 0 };
    // 10 cells per second, delta 0.1 truncated in fixed point
    let (next, cx, cy) = agent_step(&a, &f, &constants(10 * 65536), 6553);
    assert_eq!(next.x, 50 * FX + 65530);
    assert_eq!(next.y, 50 * FX);
    assert_eq!(next.dx, FX);
    assert_eq!(next.dy, 0);
    assert_eq!((cx, cy), (50, 50));
}

#[test]
fn edge_clamp_reflects_the_violated_axis() {
    let f = Field::new(10, 10);
    let a = Agent { x: 9 * FX + 32768, y: 5 * FX, dx: FX, dy: 0 };
    // fast enough to overshoot the right edge in one step
    let (next, cx, cy) = agent_step(&a, &f, &constants(1000 * 65536), 65536);
    // clamped to the nearest in-bounds coordinate, never lost
    assert_eq!(next.x, 10 * FX - 1);
    assert_eq!(next.y, 5 * FX);
    // the heading component along the violated axis is sign-flipped
    assert_eq!(next.dx, -FX);
    assert_eq!(next.dy, 0);
    assert_eq!((cx, cy), (9, 5));
}

#[test]
fn edge_clamp_reflects_the_low_edge_too() {
    let f = Field::new(10, 10);
    let a = Agent { x: 5 * FX, y: 32768, dx: 0, dy: -FX };
    let (next, cx, cy) = agent_step(&a, &f, &constants(1000 * 65536), 65536);
    assert_eq!(next.y, 0);
    assert_eq!(next.dy, FX);
    assert_eq!(next.x, 5 * FX);
    assert_eq!(next.dx, 0);
    assert_eq!((cx, cy), (5, 0));
}

#[test]
fn steering_turns_toward_the_stronger_side() {
    let mut f = Field::new(40, 40);
    // heavy trail above the agent; sensors at offset 20 cells
    for x in 0..40 {
        f.set(x, 35, 1_000_000);
    }
    // heading +x, sensor angle a quarter turn: left probe looks at +y
    let cs = SimConstants {
        move_speed: 65536,
        turn_cos: 0,
        turn_sin: FX,
        sensor_cos: 0,
        sensor_sin: FX,
        sensor_offset: 15 * 65536,
        sensor_size: 1,
        trail_weight: 0,
        decay_rate: 0,
        diffuse_rate: 0,
    };
    let a = Agent { x: 20 * FX, y: 20 * FX, dx: FX, dy: 0 };
    let (next, _, _) = agent_step(&a, &f, &cs, 65536);
    // turned left by the quarter-turn rotation: heading now +y
    assert_eq!(next.dx, 0);
    assert_eq!(next.dy, FX);
}

#[test]
fn ties_break_toward_no_turn() {
    let f = Field::new(40, 40);
    let cs = SimConstants { turn_sin: FX, turn_cos: 0, ..constants(65536) };
    let a = Agent { x: 20 * FX, y: 20 * FX, dx: FX, dy: 0 };
    let (next, _, _) = agent_step(&a, &f, &cs, 65536);
    // all samples equal: the heading is kept
    assert_eq!(next.dx, FX);
    assert_eq!(next.dy, 0);
}

#[test]
fn isqrt_rounds_down() {
    assert_eq!(isqrt(0), 0);
    assert_eq!(isqrt(1), 1);
    assert_eq!(isqrt(15), 3);
    assert_eq!(isqrt(16), 4);
    assert_eq!(isqrt(17), 4);
    assert_eq!(isqrt(4294967296), 65536);
    assert_eq!(isqrt(4294967295), 65535);
}

#[test]
fn heading_from_bits_is_deterministic() {
    // a pure +x draw normalises to exactly one unit
    let bits = (65535u64 << 17) | 131070;
    assert_eq!(heading_from_bits(bits), Some((65536, 0)));
    // a diagonal draw of squared magnitude 50000 * 50000
    let bits = (95535u64 << 17) | 105535;
    assert_eq!(heading_from_bits(bits), Some((52428, 39321)));
}

#[test]
fn heading_from_bits_rejects_bad_draws() {
    // the zero vector is rejected
    assert_eq!(heading_from_bits((65535u64 << 17) | 65535), None);
    // a point outside the unit disc is rejected
    assert_eq!(heading_from_bits((131070u64 << 17) | 131070), None);
}

#[test]
fn random_heading_is_a_bounded_near_unit_vector() {
    for _ in 0..100 {
        let (dx, dy) = random_heading();
        assert!(-FX <= dx && dx <= FX);
        assert!(-FX <= dy && dy <= FX);
        assert!(dx * dx + dy * dy >= 65533 * 65533);
    }
}

#[test]
fn spawn_places_the_population_at_the_centre() {
    let agents = spawn_agents(32, 100, 60);
    assert_eq!(agents.len(), 32);
    for a in &agents {
        assert_eq!(a.x, 50 * FX);
        assert_eq!(a.y, 30 * FX);
        assert!(-FX <= a.dx && a.dx <= FX);
        assert!(-FX <= a.dy && a.dy <= FX);
        assert!(a.dx * a.dx + a.dy * a.dy >= 65533 * 65533);
    }
}
