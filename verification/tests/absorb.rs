use eigen_trust::absorb::{
    AbsorbChip, AssignedCell, CellValue, CommonConfig, ConstraintSystem, RegionCtx,
    check_absorb_gate,
};
use eigen_trust::absorb::Felt;

fn felt(x: u64) -> Felt {
    Felt { l0: x, l1: 0, l2: 0, l3: 0 }
}

fn known_cell(x: u64, row: u64, col: u64) -> AssignedCell {
    AssignedCell { value: CellValue::Known(felt(x)), row, col }
}

#[test]
fn test_configure_allocates_fresh_selectors() {
    let common = CommonConfig { advice_cols: 4 };
    let mut meta = ConstraintSystem::new();
    let s0 = AbsorbChip::configure(&common, &mut meta, 2);
    let s1 = AbsorbChip::configure(&common, &mut meta, 3);
    assert_eq!(s0.id, 0);
    assert_eq!(s1.id, 1);
    assert_eq!(meta.num_selectors, 2);
    assert_eq!(meta.absorb_gates.len(), 2);
    assert_eq!(meta.absorb_gates[0], (0, 2));
    assert_eq!(meta.absorb_gates[1], (1, 3));
}

#[test]
fn test_absorb_scenario() {
    // WIDTH = 2, previous state [3, 5], chunk [2, 7]: the next state must
    // equal [5, 12], computed in the real field.
    let common = CommonConfig { advice_cols: 4 };
    let mut meta = ConstraintSystem::new();
    let selector = AbsorbChip::configure(&common, &mut meta, 2);
    let prev = vec![known_cell(3, 90, 0), known_cell(5, 90, 1)];
    let chunk = vec![known_cell(2, 91, 0), known_cell(7, 91, 1)];
    let chip = AbsorbChip::new(prev, chunk);
    let mut ctx = RegionCtx::new(0);
    let out = chip.synthesize(&common, &selector, &mut ctx).unwrap();
    assert_eq!(out.len(), 2);
    assert_eq!(out[0].value, CellValue::Known(felt(5)));
    assert_eq!(out[1].value, CellValue::Known(felt(12)));
    assert_eq!(out[0].row, 2);
    assert_eq!(out[1].row, 2);
    assert_eq!(out[0].col, 0);
    assert_eq!(out[1].col, 1);
    assert_eq!(ctx.offset, 2);
    assert_eq!(ctx.enabled, vec![(selector.id, 0)]);
}

#[test]
fn test_gate_rejects_deviating_third_row() {
    // A correct sum row is accepted; wrong or incomplete rows are not.
    let prev = vec![CellValue::Known(felt(3)), CellValue::Known(felt(5))];
    let chunk = vec![CellValue::Known(felt(2)), CellValue::Known(felt(7))];
    let good = vec![CellValue::Known(felt(5)), CellValue::Known(felt(12))];
    assert!(check_absorb_gate(&prev, &chunk, &good));
    let off_by_one = vec![CellValue::Known(felt(5)), CellValue::Known(felt(13))];
    assert!(!check_absorb_gate(&prev, &chunk, &off_by_one));
    let wrong_first = vec![CellValue::Known(felt(6)), CellValue::Known(felt(12))];
    assert!(!check_absorb_gate(&prev, &chunk, &wrong_first));
    let missing = vec![CellValue::Known(felt(5)), CellValue::Unknown];
    assert!(!check_absorb_gate(&prev, &chunk, &missing));
}

#[test]
fn test_inputs_are_bound_by_copy_constraints() {
    // The rows the gadget fills are bound, cell by cell, to the caller's
    // own committed cells.
    let common = CommonConfig { advice_cols: 4 };
    let mut meta = ConstraintSystem::new();
    let selector = AbsorbChip::configure(&common, &mut meta, 2);
    let prev = vec![known_cell(3, 90, 0), known_cell(5, 90, 1)];
    let chunk = vec![known_cell(2, 91, 0), known_cell(7, 91, 1)];
    let chip = AbsorbChip::new(prev.clone(), chunk.clone());
    let mut ctx = RegionCtx::new(10);
    chip.synthesize(&common, &selector, &mut ctx).unwrap();
    assert_eq!(ctx.copies.len(), 4);
    // Previous state copied into row 10, bound to the caller's cells.
    assert_eq!(ctx.copies[0], (known_cell(3, 10, 0), prev[0]));
    assert_eq!(ctx.copies[1], (known_cell(5, 10, 1), prev[1]));
    // Chunk copied into row 11, bound identically.
    assert_eq!(ctx.copies[2], (known_cell(2, 11, 0), chunk[0]));
    assert_eq!(ctx.copies[3], (known_cell(7, 11, 1), chunk[1]));
}

#[test]
fn test_unknown_inputs_propagate() {
    // An unknown entry in either input leaves the matching output column
    // unknown.
    let common = CommonConfig { advice_cols: 4 };
    let mut meta = ConstraintSystem::new();
    let selector = AbsorbChip::configure(&common, &mut meta, 3);
    let prev = vec![
        known_cell(3, 90, 0),
        AssignedCell { value: CellValue::Unknown, row: 90, col: 1 },
        known_cell(4, 90, 2),
    ];
    let chunk = vec![
        known_cell(2, 91, 0),
        known_cell(7, 91, 1),
        AssignedCell { value: CellValue::Unknown, row: 91, col: 2 },
    ];
    let chip = AbsorbChip::new(prev, chunk);
    let mut ctx = RegionCtx::new(0);
    let out = chip.synthesize(&common, &selector, &mut ctx).unwrap();
    assert_eq!(out[0].value, CellValue::Known(felt(5)));
    assert_eq!(out[1].value, CellValue::Unknown);
    assert_eq!(out[2].value, CellValue::Unknown);
}

#[test]
fn test_assigning_outside_columns_fails_synthesis() {
    // A width beyond the declared column set is a synthesis error, and the
    // failed build leaves the region untouched.
    let common = CommonConfig { advice_cols: 1 };
    let mut meta = ConstraintSystem::new();
    let selector = AbsorbChip::configure(&common, &mut meta, 2);
    let prev = vec![known_cell(3, 90, 0), known_cell(5, 90, 1)];
    let chunk = vec![known_cell(2, 91, 0), known_cell(7, 91, 1)];
    let chip = AbsorbChip::new(prev, chunk);
    let mut ctx = RegionCtx::new(0);
    let r = chip.synthesize(&common, &selector, &mut ctx);
    assert!(r.is_err());
    assert_eq!(ctx.offset, 0);
    assert!(ctx.writes.is_empty());
    assert!(ctx.copies.is_empty());
    assert!(ctx.enabled.is_empty());
}

#[test]
fn test_field_sum_carries_limbs() {
    // The field sum is computed in the Pallas base field: limb overflow
    // carries into the next limb instead of wrapping within one limb.
    let a = Felt { l0: u64::MAX, l1: 0, l2: 0, l3: 0 };
    let b = felt(1);
    let prev = vec![AssignedCell { value: CellValue::Known(a), row: 0, col: 0 }];
    let chunk = vec![AssignedCell { value: CellValue::Known(b), row: 1, col: 0 }];
    let common = CommonConfig { advice_cols: 1 };
    let mut meta = ConstraintSystem::new();
    let selector = AbsorbChip::configure(&common, &mut meta, 1);
    let chip = AbsorbChip::new(prev, chunk);
    let mut ctx = RegionCtx::new(0);
    let out = chip.synthesize(&common, &selector, &mut ctx).unwrap();
    assert_eq!(out[0].value, CellValue::Known(Felt { l0: 0, l1: 1, l2: 0, l3: 0 }));
}
