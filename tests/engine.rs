use halo2_lessons::fibonacci::{FibonacciChip, MyCircuit};
use halo2_lessons::field::Fe;
use halo2_lessons::layout::{Assignment, AssignmentError, CellRef};
use halo2_lessons::plonk::{Column, ColumnKind, ConfigError, ConstraintSystem, Expr, Selector};
use halo2_lessons::prover::{check, Error, Failure};
use halo2_lessons::simple::{test_error, FieldChip, MulCircuit};

fn fe(v: u64) -> Fe {
    Fe::from_u64(v)
}

fn same(a: &Fe, b: &Fe) -> bool {
    a.repr == b.repr
}

fn minus_one() -> Fe {
    Fe::zero().sub(&Fe::one())
}

fn value_at(lay: &Assignment, column: Column, row: usize) -> Option<Fe> {
    lay.cells[column.index * lay.n + row]
}

fn fib_layout(a: u64, b: u64, n: usize, k: u32) -> (ConstraintSystem, Assignment, [Column; 3]) {
    let mut cs = ConstraintSystem::new();
    let config = MyCircuit::configure(&mut cs).unwrap();
    let mut lay = Assignment::new(&cs, k).unwrap();
    let circuit = MyCircuit { a: Some(fe(a)), b: Some(fe(b)), n };
    circuit.synthesize(&cs, config, &mut lay).unwrap();
    (cs, lay, config.advice)
}

#[test]
fn field_arithmetic_matches_integers() {
    assert!(same(&fe(2).add(&fe(3)), &fe(5)));
    assert!(same(&fe(6).mul(&fe(7)), &fe(42)));
    assert!(same(&fe(10).sub(&fe(4)), &fe(6)));
    assert!(same(&Fe::one(), &fe(1)));
    assert!(same(&Fe::zero(), &fe(0)));
    assert!(fe(0).is_zero());
    assert!(!fe(9).is_zero());
}

#[test]
fn field_arithmetic_wraps_at_modulus() {
    // p - 1, little-endian.
    let mut expected = [0u8; 32];
    let p_minus_one: [u8; 32] = [
        0x00, 0x00, 0x00, 0x00, 0xed, 0x30, 0x2d, 0x99, 0x1b, 0xf9, 0x4c, 0x09, 0xfc, 0x98, 0x46, 0x22, 0x00,
        0x00, 0x00, 0x00, 0x00, 0x00, 0x00, 0x00, 0x00, 0x00, 0x00, 0x00, 0x00, 0x00, 0x00, 0x40,
    ];
    expected.copy_from_slice(&p_minus_one);
    assert_eq!(minus_one().repr, expected);
    assert!(minus_one().add(&Fe::one()).is_zero());
    assert!(same(&minus_one().mul(&minus_one()), &Fe::one()));
    assert!(!minus_one().equals(&Fe::one()));
    assert!(fe(77).equals(&fe(77)));
}

#[test]
fn fibonacci_scenario_seeds_one_one() {
    let (cs, lay, advice) = fib_layout(1, 1, 10, 4);
    let expected = [2u64, 3, 5, 8, 13, 21, 34, 55, 89];
    for (row, want) in expected.iter().enumerate() {
        let got = value_at(&lay, advice[2], row).unwrap();
        assert!(same(&got, &fe(*want)), "row {}", row);
    }
    assert!(value_at(&lay, advice[2], expected.len()).is_none());
    assert!(check(&cs, &lay, &vec![]).is_empty());
    let circuit = MyCircuit { a: Some(fe(1)), b: Some(fe(1)), n: 10 };
    assert_eq!(circuit.run(4, &vec![]).unwrap(), vec![]);
}

#[test]
fn fibonacci_rows_chain_and_pass() {
    for (a, b, n) in [(0u64, 0u64, 2usize), (1, 2, 5), (5, 8, 12), (0, 1, 16), (u64::MAX, 3, 9)] {
        let (cs, lay, advice) = fib_layout(a, b, n, 5);
        let rows = if n <= 2 { 1 } else { n - 1 };
        for row in 0..rows {
            let va = value_at(&lay, advice[0], row).unwrap();
            let vb = value_at(&lay, advice[1], row).unwrap();
            let vc = value_at(&lay, advice[2], row).unwrap();
            assert!(same(&vc, &va.add(&vb)));
            if row > 0 {
                let pb = value_at(&lay, advice[1], row - 1).unwrap();
                let pc = value_at(&lay, advice[2], row - 1).unwrap();
                assert!(same(&vc, &pb.add(&pc)));
            }
        }
        assert!(check(&cs, &lay, &vec![]).is_empty());
        let circuit = MyCircuit { a: Some(fe(a)), b: Some(fe(b)), n };
        assert_eq!(circuit.run(5, &vec![]).unwrap(), vec![]);
    }
}

#[test]
fn fibonacci_grid_too_small() {
    let circuit = MyCircuit { a: Some(fe(1)), b: Some(fe(1)), n: 10 };
    assert_eq!(circuit.run(3, &vec![]), Err(Error::Assignment(AssignmentError::OutOfGrid(0))));
    assert_eq!(circuit.run(64, &vec![]), Err(Error::Assignment(AssignmentError::GridTooLarge)));
}

#[test]
fn fibonacci_without_witnesses() {
    let circuit = MyCircuit { a: Some(fe(1)), b: Some(fe(1)), n: 10 };
    let blank = circuit.without_witnesses();
    assert!(blank.a.is_none() && blank.b.is_none());
    assert_eq!(blank.n, 10);
    assert_eq!(blank.run(4, &vec![]), Err(Error::Assignment(AssignmentError::MissingWitness)));
}

#[test]
fn cleared_witness_lays_out_the_same_structure() {
    let circuit = MyCircuit { a: Some(fe(1)), b: Some(fe(1)), n: 10 };
    let blank = circuit.without_witnesses();
    let mut layouts = Vec::new();
    for c in [circuit, blank] {
        let mut cs = ConstraintSystem::new();
        let config = MyCircuit::configure(&mut cs).unwrap();
        let mut lay = Assignment::new(&cs, 4).unwrap();
        c.synthesize(&cs, config, &mut lay).unwrap();
        layouts.push(lay);
    }
    let (known, cleared) = (&layouts[0], &layouts[1]);
    assert_eq!(known.regions, cleared.regions);
    assert_eq!(known.enabled, cleared.enabled);
    assert_eq!(known.copies, cleared.copies);
    assert_eq!(known.region_start, cleared.region_start);
    assert!(cleared.cells.iter().all(|c| c.is_none()));
    let mut cs = ConstraintSystem::new();
    MyCircuit::configure(&mut cs).unwrap();
    let report = check(&cs, cleared, &vec![]);
    assert_eq!(report.len(), 9);
    assert_eq!(report[0], Failure::UnassignedCell { gate: 0, poly: 0, row: 0 });
    assert!(report.iter().all(|f| matches!(f, Failure::UnassignedCell { .. })));
    assert_eq!(known.regions.len(), 9);
    assert_eq!(known.copies.len(), 16);
}

#[test]
fn mutated_cell_is_reported() {
    let (cs, lay, advice) = fib_layout(1, 1, 10, 4);
    for row in 0..9 {
        for col in 0..3 {
            let mut bad = Assignment { cells: lay.cells.clone(), enabled: lay.enabled.clone(), copies: lay.copies.clone(), exposed: lay.exposed.clone(), regions: lay.regions.clone(), ..lay };
            let column = advice[col];
            let i = column.index * bad.n + row;
            let old = bad.cells[i].unwrap();
            bad.cells[i] = Some(old.add(&Fe::one()));
            let found = check(&cs, &bad, &vec![]);
            let cell = CellRef { column, row };
            assert!(
                found.iter().any(|f| match f {
                    Failure::GateViolation { row: r, .. } => *r == row,
                    Failure::CopyConstraintViolation { left, right } => *left == cell || *right == cell,
                    _ => false,
                }),
                "row {} column {}",
                row,
                col
            );
        }
    }
}

#[test]
fn configure_twice_gives_same_shape() {
    let mut one = ConstraintSystem::new();
    let mut two = ConstraintSystem::new();
    let c1 = MyCircuit::configure(&mut one).unwrap();
    let c2 = MyCircuit::configure(&mut two).unwrap();
    assert_eq!(format!("{:?}", c1), format!("{:?}", c2));
    assert_eq!(one.columns, two.columns);
    assert_eq!(one.num_selectors, two.num_selectors);
    assert_eq!(one.equality, two.equality);
    assert_eq!(one.constants, two.constants);
    assert_eq!(format!("{:?}", one.gates), format!("{:?}", two.gates));
    assert_eq!(one.gates.len(), 1);
    assert_eq!(one.gates[0].name, "add");
}

#[test]
fn mul_round_trip_passes() {
    let values = [fe(0), fe(1), fe(3), fe(12345), minus_one()];
    for x in values.iter() {
        for y in values.iter() {
            let circuit = MulCircuit { x: Some(*x), y: Some(*y) };
            let public = vec![x.mul(y)];
            assert_eq!(circuit.run(2, &public).unwrap(), vec![], "{:?} {:?}", x, y);
        }
    }
}

#[test]
fn mul_wrong_public_input_is_one_mismatch() {
    let circuit = MulCircuit { x: Some(fe(3)), y: Some(fe(5)) };
    let product = CellRef { column: Column { index: 0, kind: ColumnKind::Advice }, row: 3 };
    let expected = vec![Failure::PublicInputMismatch { position: 0, cell: product }];
    assert_eq!(circuit.run(2, &vec![fe(16)]).unwrap(), expected);
    assert_eq!(circuit.run(2, &vec![]).unwrap(), expected);
    assert_eq!(circuit.run(2, &vec![fe(15), fe(1)]).unwrap(), vec![]);
    assert_eq!(circuit.run(1, &vec![fe(15)]), Err(Error::Assignment(AssignmentError::OutOfGrid(0))));
    let blank = circuit.without_witnesses();
    assert_eq!(blank.run(2, &vec![fe(15)]), Err(Error::Assignment(AssignmentError::MissingWitness)));
}

#[test]
fn mul_chip_layout() {
    let mut cs = ConstraintSystem::new();
    let config = MulCircuit::configure(&mut cs).unwrap();
    let chip = FieldChip::construct(config);
    assert_eq!(chip.config().s_mul, Selector { index: 0 });
    chip.loaded();
    let mut lay = Assignment::new(&cs, 3).unwrap();
    let c = chip.load_constant(&cs, &mut lay, fe(4)).unwrap();
    let x = chip.load_private(&cs, &mut lay, Some(fe(6))).unwrap();
    let z = chip.mul(&cs, &mut lay, c, x).unwrap();
    assert!(same(&z.0.value.unwrap(), &fe(24)));
    assert_eq!(z.0.cell.row, 3);
    chip.expose_public(&cs, &mut lay, z, 0).unwrap();
    assert!(check(&cs, &lay, &vec![fe(24)]).is_empty());
    // The constant also sits in the constant column, on the same row.
    let fixed = CellRef { column: Column { index: 3, kind: ColumnKind::Fixed }, row: c.0.cell.row };
    assert!(same(&value_at(&lay, fixed.column, fixed.row).unwrap(), &fe(4)));
    // A loaded constant that was overwritten breaks its copy constraint.
    let i = c.0.cell.column.index * lay.n + c.0.cell.row;
    lay.cells[i] = Some(fe(5));
    let found = check(&cs, &lay, &vec![fe(24)]);
    assert!(found.contains(&Failure::CopyConstraintViolation { left: c.0.cell, right: fixed }));
    // An unknown value is laid out all the same, with no value in its cell.
    let pending = chip.load_private(&cs, &mut lay, None).unwrap();
    assert!(pending.0.value.is_none());
    assert!(value_at(&lay, pending.0.cell.column, pending.0.cell.row).is_none());
}

#[test]
fn reassigning_a_cell_conflicts() {
    let mut cs = ConstraintSystem::new();
    let col = cs.add_advice_column();
    let mut lay = Assignment::new(&cs, 2).unwrap();
    lay.begin_region("r".to_string());
    lay.assign_advice(&cs, col, 0, Some(fe(1))).unwrap();
    assert!(lay.assign_advice(&cs, col, 0, Some(fe(1))).is_ok());
    let err = lay.assign_advice(&cs, col, 0, Some(fe(2))).unwrap_err();
    assert_eq!(err, AssignmentError::CellConflict(CellRef { column: col, row: 0 }));
    assert!(same(&value_at(&lay, col, 0).unwrap(), &fe(1)));
}

#[test]
fn assignment_errors() {
    let mut cs = ConstraintSystem::new();
    let adv = cs.add_advice_column();
    let fixed = cs.add_fixed_column();
    let inst = cs.add_instance_column();
    let sel = cs.add_selector();
    let ghost = Column { index: 9, kind: ColumnKind::Advice };
    let mut lay = Assignment::new(&cs, 1).unwrap();
    assert_eq!(lay.n, 2);
    lay.begin_region("r".to_string());
    assert_eq!(lay.assign_advice(&cs, ghost, 0, Some(fe(1))).unwrap_err(), AssignmentError::UnknownColumn(ghost));
    assert_eq!(lay.assign_advice(&cs, fixed, 0, Some(fe(1))).unwrap_err(), AssignmentError::WrongColumnKind(fixed));
    assert!(lay.assign_fixed(&cs, fixed, 0, fe(1)).is_ok());
    assert_eq!(lay.assign_advice(&cs, adv, 2, Some(fe(1))).unwrap_err(), AssignmentError::OutOfGrid(2));
    assert_eq!(lay.enable_selector(Selector { index: 4 }, 0).unwrap_err(), AssignmentError::UnknownSelector(Selector { index: 4 }));
    assert_eq!(lay.enable_selector(sel, 5).unwrap_err(), AssignmentError::OutOfGrid(5));
    assert_eq!(lay.assign_advice_from_constant(&cs, adv, 0, fe(1)).unwrap_err(), AssignmentError::NoConstantColumn);
    let mut with_const = ConstraintSystem::new();
    let cadv = with_const.add_advice_column();
    let cfix = with_const.add_fixed_column();
    with_const.enable_constant(cfix).unwrap();
    with_const.enable_equality(cadv).unwrap();
    let mut clay = Assignment::new(&with_const, 1).unwrap();
    clay.begin_region("c".to_string());
    clay.assign_fixed(&with_const, cfix, 0, fe(8)).unwrap();
    assert_eq!(
        clay.assign_advice_from_constant(&with_const, cadv, 0, fe(9)).unwrap_err(),
        AssignmentError::CellConflict(CellRef { column: cfix, row: 0 })
    );
    assert!(clay.assign_advice_from_constant(&with_const, cadv, 0, fe(8)).is_ok());
    let a = lay.assign_advice(&cs, adv, 0, Some(fe(3))).unwrap();
    assert_eq!(lay.copy_advice(&cs, &a, adv, 1).unwrap_err(), AssignmentError::EqualityNotEnabled(adv));
    assert_eq!(lay.constrain_instance(&cs, a.cell, inst, 0).unwrap_err(), AssignmentError::EqualityNotEnabled(inst));
    assert_eq!(lay.constrain_instance(&cs, a.cell, fixed, 0).unwrap_err(), AssignmentError::WrongColumnKind(fixed));
    assert_eq!(Assignment::new(&cs, 63).unwrap_err(), AssignmentError::GridTooLarge);
}

#[test]
fn config_errors() {
    let mut cs = ConstraintSystem::new();
    let adv = cs.add_advice_column();
    let inst = cs.add_instance_column();
    let ghost = Column { index: 7, kind: ColumnKind::Fixed };
    assert_eq!(cs.enable_equality(ghost), Err(ConfigError::UnknownColumn(ghost)));
    assert_eq!(cs.enable_constant(inst), Err(ConfigError::UnsupportedColumnKind(inst)));
    let s = cs.add_selector();
    let q = || Expr::Query(adv, 0);
    assert_eq!(cs.create_gate("g".to_string(), Selector { index: 3 }, vec![q()]), Err(ConfigError::UnknownSelector(Selector { index: 3 })));
    assert_eq!(cs.create_gate("g".to_string(), s, vec![Expr::Query(ghost, 0)]), Err(ConfigError::UnknownGateColumn));
    assert_eq!(cs.create_gate("g".to_string(), s, vec![q()]), Ok(()));
    assert_eq!(cs.create_gate("g".to_string(), s, vec![q()]), Err(ConfigError::DuplicateGateName));
    assert!(cs.has_gate(&"g".to_string()));
    let mut other = ConstraintSystem::new();
    other.add_advice_column();
    other.add_advice_column();
    other.add_advice_column();
    let chip_cfg = FibonacciChip::configure(&mut other, [ghost, ghost, ghost]);
    assert_eq!(chip_cfg.unwrap_err(), ConfigError::UnknownColumn(ghost));
    let mut kinds = ConstraintSystem::new();
    let k0 = kinds.add_advice_column();
    let k1 = kinds.add_advice_column();
    let kf = kinds.add_fixed_column();
    let ki = kinds.add_instance_column();
    assert_eq!(FibonacciChip::configure(&mut kinds, [k0, kf, k1]).unwrap_err(), ConfigError::UnsupportedColumnKind(kf));
    assert_eq!(FibonacciChip::configure(&mut kinds, [k0, k1, k0]).unwrap_err(), ConfigError::RepeatedColumn(k0));
    assert_eq!(FieldChip::configure(&mut kinds, [k0, k1], k0, kf).unwrap_err(), ConfigError::UnsupportedColumnKind(k0));
    assert_eq!(FieldChip::configure(&mut kinds, [k0, k0], ki, kf).unwrap_err(), ConfigError::RepeatedColumn(k0));
    assert_eq!(kinds.num_selectors, 0);
    assert!(kinds.gates.is_empty());
    assert!(FieldChip::configure(&mut kinds, [k0, k1], ki, kf).is_ok());
    assert_eq!(FieldChip::configure(&mut kinds, [k0, k1], ki, kf).unwrap_err(), ConfigError::DuplicateGateName);
    let mut twice = ConstraintSystem::new();
    MyCircuit::configure(&mut twice).unwrap();
    assert_eq!(MyCircuit::configure(&mut twice).unwrap_err(), ConfigError::DuplicateGateName);
}

#[test]
fn gate_with_next_row_rotation_wraps() {
    let mut cs = ConstraintSystem::new();
    let adv = cs.add_advice_column();
    let s = cs.add_selector();
    // x(next) - x(cur) - 1 = 0
    let poly = Expr::Difference(
        Box::new(Expr::Difference(Box::new(Expr::Query(adv, 1)), Box::new(Expr::Query(adv, 0)))),
        Box::new(Expr::Constant(Fe::one())),
    );
    cs.create_gate("step".to_string(), s, vec![poly]).unwrap();
    let mut lay = Assignment::new(&cs, 2).unwrap();
    lay.begin_region("all".to_string());
    for row in 0..4usize {
        lay.assign_advice(&cs, adv, row, Some(fe(row as u64))).unwrap();
        lay.enable_selector(s, row).unwrap();
    }
    // The last row wraps around to row 0: 0 - 3 - 1 != 0.
    let value = fe(0).sub(&fe(3)).sub(&Fe::one());
    assert_eq!(check(&cs, &lay, &vec![]), vec![Failure::GateViolation { gate: 0, poly: 0, row: 3, value }]);
}

#[test]
fn error_helper() {
    assert!(test_error("ok", true).is_ok());
    let e = test_error("error 1", false).unwrap_err();
    assert_eq!(e.msg, "error 1");
}
