use slime::field::Field;
use slime::pool::{FieldPool, PoolError};
use slime::slot::Slot;

#[test]
fn new_field_is_zeroed() {
    let f = Field::new(4, 3);
    assert_eq!(f.width, 4);
    assert_eq!(f.height, 3);
    assert_eq!(f.cells.len(), 12);
    for y in 0..3 {
        for x in 0..4 {
            assert_eq!(f.get(x, y), 0);
        }
    }
    assert_eq!(f.total_intensity(), 0);
}

#[test]
fn set_and_get_round_trip() {
    let mut f = Field::new(5, 5);
    f.set(2, 3, 777);
    assert_eq!(f.get(2, 3), 777);
    assert_eq!(f.get(3, 2), 0);
    assert_eq!(f.get(0, 0), 0);
    f.set(2, 3, 111);
    assert_eq!(f.get(2, 3), 111);
}

#[test]
fn total_intensity_sums_all_cells() {
    let mut f = Field::new(3, 2);
    f.set(0, 0, 10);
    f.set(2, 0, 20);
    f.set(1, 1, 30);
    assert_eq!(f.total_intensity(), 60);
}

#[test]
fn snapshot_copies_contents() {
    let mut f = Field::new(3, 3);
    f.set(1, 1, 42);
    let g = f.snapshot();
    assert_eq!(g.get(1, 1), 42);
    assert_eq!(g.get(0, 0), 0);
    f.set(1, 1, 7);
    assert_eq!(g.get(1, 1), 42);
}

#[test]
fn deposit_accumulates_additively() {
    let mut f = Field::new(4, 4);
    f.deposit(1, 2, 100);
    f.deposit(1, 2, 250);
    assert_eq!(f.get(1, 2), 350);
}

#[test]
fn deposit_saturates_at_cell_maximum() {
    let mut f = Field::new(2, 2);
    f.set(0, 1, u32::MAX - 10);
    f.deposit(0, 1, 100);
    assert_eq!(f.get(0, 1), u32::MAX);
}

#[test]
fn blit_copies_full_slot_contents() {
    let mut p = FieldPool::new(6, 4);
    p.trail.set(5, 3, 900);
    p.trail.set(0, 0, 1);
    p.blit(Slot::Trail, Slot::Display);
    assert_eq!(p.display.get(5, 3), 900);
    assert_eq!(p.display.get(0, 0), 1);
    assert_eq!(p.display.get(1, 1), 0);
    // the source is untouched
    assert_eq!(p.trail.get(5, 3), 900);
}

#[test]
fn assemble_accepts_matching_extents() {
    let p = FieldPool::assemble(
        Field::new(8, 6),
        Field::new(8, 6),
        Field::new(8, 6),
        Field::new(8, 6),
    );
    assert!(p.is_ok());
}

#[test]
fn assemble_rejects_dimension_mismatch() {
    let p = FieldPool::assemble(
        Field::new(8, 6),
        Field::new(8, 6),
        Field::new(8, 7),
        Field::new(8, 6),
    );
    assert!(matches!(p, Err(PoolError::DimensionMismatch)));
}
