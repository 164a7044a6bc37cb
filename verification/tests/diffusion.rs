use slime::field::Field;

const FX: u32 = 65536;

#[test]
fn zero_rates_leave_the_field_unchanged() {
    let mut f = Field::new(7, 7);
    f.set(3, 3, 12345);
    f.set(0, 6, 999);
    let d = f.diffuse_decay(0, 0, 6553);
    for y in 0..7 {
        for x in 0..7 {
            assert_eq!(d.get(x, y), f.get(x, y));
        }
    }
}

#[test]
fn full_decay_clears_the_field() {
    let mut f = Field::new(5, 5);
    f.set(2, 2, 100000);
    f.set(4, 4, 123);
    // decay_rate * delta == 1.0, so the survival factor is zero
    let d = f.diffuse_decay(0, FX, FX);
    assert_eq!(d.total_intensity(), 0);
}

#[test]
fn half_decay_halves_a_cell() {
    let mut f = Field::new(5, 5);
    f.set(2, 2, FX);
    // decay_rate * delta == 0.5
    let d = f.diffuse_decay(0, FX / 2, FX);
    assert_eq!(d.get(2, 2), FX / 2);
}

#[test]
fn stencil_spreads_a_single_source() {
    // a single non-zero interior cell, full blend toward the window average
    let mut f = Field::new(10, 10);
    let source = 9 * FX;
    f.set(5, 5, source);
    let before = f.total_intensity();
    let d = f.diffuse_decay(FX, 0, FX);
    // the four cardinal neighbours have increased from zero
    assert!(d.get(4, 5) > 0);
    assert!(d.get(6, 5) > 0);
    assert!(d.get(5, 4) > 0);
    assert!(d.get(5, 6) > 0);
    // the source cell has decreased
    assert!(d.get(5, 5) < source);
    // mass is conserved up to rounding (at most two units per cell), and
    // with these values exactly: each window cell gets a ninth
    assert_eq!(d.get(5, 5), FX);
    assert_eq!(d.get(4, 4), FX);
    assert_eq!(d.total_intensity(), before);
    // cells outside the window are untouched
    assert_eq!(d.get(1, 1), 0);
    assert_eq!(d.get(7, 5), 0);
}

#[test]
fn diffusion_total_never_increases() {
    let mut f = Field::new(6, 6);
    f.set(0, 0, 3 * FX);
    f.set(5, 5, 7 * FX);
    f.set(2, 4, 11 * FX);
    let before = f.total_intensity();
    let d = f.diffuse_decay(FX / 4, 0, FX);
    let after = d.total_intensity();
    assert!(after <= before);
    // and loses at most two fixed-point units per cell to rounding
    assert!(after >= before - 2 * 36);
}

#[test]
fn edge_cells_clamp_their_windows() {
    // a corner source diffuses only into its in-bounds window; the clamped
    // out-of-range samples repeat in-bounds cells, so mass stays put
    let mut f = Field::new(4, 4);
    f.set(0, 0, 9 * FX);
    let before = f.total_intensity();
    let d = f.diffuse_decay(FX, 0, FX);
    // the corner's window holds the source four times (clamping doubles
    // both out-of-range axes): 4/9 of the mass stays, rounded down
    assert_eq!(d.get(0, 0), 4 * FX);
    assert_eq!(d.get(1, 1), FX);
    assert!(d.total_intensity() <= before);
}

#[test]
fn step_frac_clamps_to_one() {
    assert_eq!(slime::diffuse::step_frac(FX, FX), FX);
    assert_eq!(slime::diffuse::step_frac(2 * FX, FX), FX);
    assert_eq!(slime::diffuse::step_frac(FX, 328), 328);
    assert_eq!(slime::diffuse::step_frac(0, FX), 0);
    // 5.0 per second at delta 0.005: 0.025 of one unit
    assert_eq!(slime::diffuse::step_frac(5 * FX, 328), 1640);
}
