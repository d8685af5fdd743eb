use mini_plonk::check::{eval_expr, verify, Failure};
use mini_plonk::circuit::{Cell, Column, ColumnKind, ConfigError, ConstraintSystem, Expr};
use mini_plonk::driver::{check_example, RunError};
use mini_plonk::field::PrimeField;
use mini_plonk::layout::{rotated_row, Layout, SynthesisError, Value};
use mini_plonk::tutorial::{TutorialChip, TutorialCircuit, TutorialConfig};

/// 2^64 - 2^32 + 1, a prime.
const P: u64 = 0xffff_ffff_0000_0001;

fn known(x: u64, y: u64, constant: u64) -> TutorialCircuit {
    TutorialCircuit { x: Value::Known(x), y: Value::Known(y), constant }
}

struct Setup {
    cfg: mini_plonk::circuit::Config,
    tc: TutorialConfig,
    layout: Layout,
}

fn synthesized(k: u32, modulus: u64, circuit: &TutorialCircuit) -> Setup {
    let mut cs = ConstraintSystem::new(k, modulus).unwrap();
    let tc = TutorialCircuit::configure(&mut cs).unwrap();
    let cfg = cs.finalize();
    let mut layout = Layout::new(&cfg);
    circuit.synthesize(&cfg, tc, &mut layout).unwrap();
    Setup { cfg, tc, layout }
}

#[test]
fn test_plonk() {
    let k = 4;
    let f = PrimeField { modulus: P };
    let x = 3;
    let y = 5;
    let constant = 1;
    let z = f.add(f.add(f.mul(x, x), f.mul(y, y)), constant);
    let circuit = known(x, y, constant);
    let public_input = vec![constant, z];
    let fails = check_example(k, P, &circuit, &vec![public_input]).unwrap();
    assert!(fails.is_empty());
}

#[test]
fn example_public_inputs_are_one_and_thirty_five() {
    let fails = check_example(4, P, &known(3, 5, 1), &vec![vec![1, 35]]).unwrap();
    assert_eq!(fails, vec![]);
}

#[test]
fn wrong_result_fails_only_its_binding() {
    let s = synthesized(4, P, &known(3, 5, 1));
    let fails = verify(&s.cfg, &s.layout, &vec![vec![1, 34]]);
    assert_eq!(
        fails,
        vec![Failure::Copy {
            index: 6,
            left: Cell { column: s.tc.o, row: 3 },
            right: Cell { column: s.tc.pi, row: 1 },
        }]
    );
}

#[test]
fn wrong_constant_fails_only_its_binding() {
    let s = synthesized(4, P, &known(3, 5, 1));
    let fails = verify(&s.cfg, &s.layout, &vec![vec![2, 35]]);
    assert_eq!(
        fails,
        vec![Failure::Copy {
            index: 5,
            left: Cell { column: s.tc.r, row: 3 },
            right: Cell { column: s.tc.pi, row: 0 },
        }]
    );
}

#[test]
fn example_satisfied_for_many_inputs() {
    let f = PrimeField { modulus: P };
    let values = [0u64, 1, 2, 7, 1 << 40, P - 1, P - 2, u64::MAX];
    for &x in values.iter() {
        for &y in values.iter() {
            for &c in [0u64, 1, P - 1].iter() {
                let z = f.add(f.add(f.mul(x, x), f.mul(y, y)), c);
                let fails = check_example(3, P, &known(x, y, c), &vec![vec![c, z]]).unwrap();
                assert!(fails.is_empty(), "x={} y={} c={}", x, y, c);
            }
        }
    }
}

#[test]
fn example_satisfied_in_small_field() {
    // 3^2 + 5^2 + 1 = 35 = 2 mod 11
    let fails = check_example(2, 11, &known(3, 5, 1), &vec![vec![1, 2]]).unwrap();
    assert!(fails.is_empty());
    let fails = check_example(2, 11, &known(3, 5, 1), &vec![vec![1, 35]]).unwrap();
    assert!(fails.is_empty());
    let fails = check_example(2, 11, &known(3, 5, 1), &vec![vec![1, 3]]).unwrap();
    assert_eq!(fails.len(), 1);
}

#[test]
fn every_mutated_advice_cell_is_detected() {
    let s = synthesized(4, P, &known(3, 5, 1));
    let public = vec![vec![1, 35]];
    assert!(verify(&s.cfg, &s.layout, &public).is_empty());
    let n = s.layout.n;
    for col in [s.tc.l, s.tc.r, s.tc.o].iter() {
        for row in 0..4usize {
            let mut mutated = Layout {
                n: s.layout.n,
                advice: s.layout.advice.clone(),
                fixed: s.layout.fixed.clone(),
                next_row: s.layout.next_row,
                regions: Vec::new(),
                copies: s.layout.copies.clone(),
            };
            let idx = col.index * n + row;
            mutated.advice[idx] = mutated.advice[idx] + 1;
            let fails = verify(&s.cfg, &mutated, &public);
            assert!(!fails.is_empty(), "column {:?} row {}", col, row);
        }
    }
}

#[test]
fn mutating_output_cell_breaks_a_gate() {
    let s = synthesized(4, P, &known(3, 5, 1));
    let public = vec![vec![1, 35]];
    let mut advice = s.layout.advice.clone();
    // o at row 0 holds 9
    advice[s.tc.o.index * s.layout.n] = 10;
    let mutated = Layout {
        n: s.layout.n,
        advice,
        fixed: s.layout.fixed.clone(),
        next_row: s.layout.next_row,
        regions: Vec::new(),
        copies: s.layout.copies.clone(),
    };
    let fails = verify(&s.cfg, &mutated, &public);
    assert!(fails.contains(&Failure::Gate { gate: 0, poly: 0, row: 0, residual: P - 1 }));
    assert!(fails.iter().any(|f| matches!(f, Failure::Copy { index: 2, .. })));
}

#[test]
fn reversed_and_repeated_copies_do_not_change_the_check() {
    let s = synthesized(3, P, &known(2, 4, 6));
    let public = vec![vec![6, 26]];
    let base = verify(&s.cfg, &s.layout, &public);
    assert!(base.is_empty());
    let a = Cell { column: s.tc.l, row: 0 };
    let b = Cell { column: s.tc.r, row: 0 };
    let mut layout = s.layout;
    layout.constrain_equal(&s.cfg, b, a).unwrap();
    layout.constrain_equal(&s.cfg, a, b).unwrap();
    assert!(verify(&s.cfg, &layout, &public).is_empty());
    // a pair of unequal cells, declared both ways, fails both times
    let c = Cell { column: s.tc.o, row: 0 };
    layout.constrain_equal(&s.cfg, a, c).unwrap();
    layout.constrain_equal(&s.cfg, c, a).unwrap();
    let fails = verify(&s.cfg, &layout, &public);
    assert_eq!(fails.len(), 2);
}

#[test]
fn synthesis_is_deterministic() {
    let circuit = known(11, 13, 17);
    let first = synthesized(4, P, &circuit);
    let second = synthesized(4, P, &circuit);
    assert_eq!(first.layout.advice, second.layout.advice);
    assert_eq!(first.layout.fixed, second.layout.fixed);
    assert_eq!(first.layout.copies, second.layout.copies);
    assert_eq!(first.layout.next_row, second.layout.next_row);
}

#[test]
fn synthesized_grid_holds_the_witness() {
    let s = synthesized(4, P, &known(3, 5, 1));
    let n = s.layout.n;
    let adv = |c: Column, r: usize| s.layout.advice[c.index * n + r];
    let fix = |c: Column, r: usize| s.layout.fixed[c.index * n + r];
    assert_eq!((adv(s.tc.l, 0), adv(s.tc.r, 0), adv(s.tc.o, 0)), (3, 3, 9));
    assert_eq!((adv(s.tc.l, 1), adv(s.tc.r, 1), adv(s.tc.o, 1)), (5, 5, 25));
    assert_eq!((adv(s.tc.l, 2), adv(s.tc.r, 2), adv(s.tc.o, 2)), (9, 25, 34));
    assert_eq!((adv(s.tc.l, 3), adv(s.tc.r, 3), adv(s.tc.o, 3)), (34, 1, 35));
    assert_eq!((fix(s.tc.sm, 0), fix(s.tc.so, 0), fix(s.tc.sl, 0)), (1, 1, 0));
    assert_eq!((fix(s.tc.sl, 2), fix(s.tc.sr, 2), fix(s.tc.sm, 2)), (1, 1, 0));
    assert_eq!(fix(s.tc.sc, 3), 0);
    assert_eq!(adv(s.tc.l, 4), 0);
    assert_eq!(s.layout.next_row, 4);
    assert_eq!(s.layout.copies.len(), 7);
    assert_eq!(s.layout.regions[0].name, "multiply");
    assert_eq!(s.layout.regions[2].name, "add");
}

#[test]
fn shape_only_synthesis_leaves_advice_zero() {
    let circuit = known(3, 5, 1).without_witnesses();
    assert_eq!(circuit, TutorialCircuit { x: Value::Unknown, y: Value::Unknown, constant: 0 });
    let s = synthesized(3, P, &circuit);
    assert!(s.layout.advice.iter().all(|v| *v == 0));
    assert_eq!(s.layout.fixed[s.tc.sm.index * s.layout.n], 1);
    assert_eq!(s.layout.copies.len(), 7);
}

#[test]
fn rotation_wraps_at_the_last_row() {
    assert_eq!(rotated_row(3, 1, 4), 0);
    assert_eq!(rotated_row(0, -1, 4), 3);
    assert_eq!(rotated_row(2, 9, 4), 3);
    assert_eq!(rotated_row(1, -6, 4), 3);
    assert_eq!(rotated_row(5, 0, 8), 5);
}

fn counter_circuit(modulus: u64, values: [u64; 4]) -> Vec<Failure> {
    // s * (a(next) - a(cur) - 1) on a grid of four rows
    let mut cs = ConstraintSystem::new(2, modulus).unwrap();
    let a = cs.advice_column();
    let s = cs.fixed_column();
    let poly = Expr::Product(
        Box::new(Expr::Query(s, 0)),
        Box::new(Expr::Sum(
            Box::new(Expr::Sum(
                Box::new(Expr::Query(a, 1)),
                Box::new(Expr::Negated(Box::new(Expr::Query(a, 0)))),
            )),
            Box::new(Expr::Negated(Box::new(Expr::Constant(1)))),
        )),
    );
    cs.create_gate("counter".to_string(), Some(s), vec![poly]).unwrap();
    let cfg = cs.finalize();
    let mut layout = Layout::new(&cfg);
    let region = layout.assign_region(&cfg, "rows".to_string(), 4).unwrap();
    for (i, v) in values.iter().enumerate() {
        layout.assign_advice(&cfg, region, a, i, Value::Known(*v));
        layout.assign_fixed(&cfg, region, s, i, 1);
    }
    verify(&cfg, &layout, &vec![])
}

#[test]
fn gate_at_last_row_reads_row_zero() {
    // 0 - 3 - 1 = -4 = 1 mod 5: only the last row fails, and it read row 0
    let fails = counter_circuit(5, [0, 1, 2, 3]);
    assert_eq!(fails, vec![Failure::Gate { gate: 0, poly: 0, row: 3, residual: 1 }]);
    // mod 2 the counter wraps from 1 back to 0
    let fails = counter_circuit(2, [0, 1, 0, 1]);
    assert!(fails.is_empty());
}

#[test]
fn selector_off_disables_gate() {
    let mut cs = ConstraintSystem::new(2, 7).unwrap();
    let a = cs.advice_column();
    let s = cs.fixed_column();
    cs.create_gate("a is zero".to_string(), Some(s), vec![Expr::Query(a, 0)]).unwrap();
    let cfg = cs.finalize();
    let mut layout = Layout::new(&cfg);
    let region = layout.assign_region(&cfg, "r".to_string(), 2).unwrap();
    layout.assign_advice(&cfg, region, a, 0, Value::Known(3));
    layout.assign_advice(&cfg, region, a, 1, Value::Known(4));
    layout.assign_fixed(&cfg, region, s, 1, 1);
    let fails = verify(&cfg, &layout, &vec![]);
    assert_eq!(fails, vec![Failure::Gate { gate: 0, poly: 0, row: 1, residual: 4 }]);
    // a selector of 7 is zero in the field
    layout.assign_fixed(&cfg, region, s, 1, 7);
    assert!(verify(&cfg, &layout, &vec![]).is_empty());
}

#[test]
fn eval_expr_computes_in_the_field() {
    let mut cs = ConstraintSystem::new(1, 11).unwrap();
    let a = cs.advice_column();
    let cfg = cs.finalize();
    let mut layout = Layout::new(&cfg);
    let region = layout.assign_region(&cfg, "r".to_string(), 2).unwrap();
    layout.assign_advice(&cfg, region, a, 0, Value::Known(6));
    layout.assign_advice(&cfg, region, a, 1, Value::Known(9));
    // a(cur) * a(next) + 3 at row 0: 6 * 9 + 3 = 57 = 2 mod 11
    let e = Expr::Sum(
        Box::new(Expr::Product(Box::new(Expr::Query(a, 0)), Box::new(Expr::Query(a, 1)))),
        Box::new(Expr::Constant(3)),
    );
    assert_eq!(eval_expr(&e, &cfg, &layout, &vec![], 0), 2);
    // at row 1 the next row is row 0: 9 * 6 + 3
    assert_eq!(eval_expr(&e, &cfg, &layout, &vec![], 1), 2);
    let neg = Expr::Negated(Box::new(Expr::Query(a, 0)));
    assert_eq!(eval_expr(&neg, &cfg, &layout, &vec![], 0), 5);
}

#[test]
fn field_operations() {
    let f = PrimeField { modulus: 7 };
    assert_eq!(f.add(5, 4), 2);
    assert_eq!(f.mul(5, 4), 6);
    assert_eq!(f.neg(3), 4);
    assert_eq!(f.neg(0), 0);
    assert_eq!(f.neg(14), 0);
    assert_eq!(f.reduce(23), 2);
    assert!(f.eq(3, 10));
    assert!(!f.eq(3, 11));
    assert_eq!((f.zero(), f.one()), (0, 1));
    let g = PrimeField { modulus: P };
    assert_eq!(g.mul(P - 1, P - 1), 1);
    assert_eq!(g.add(P - 1, 2), 1);
    assert_eq!(g.add(u64::MAX, u64::MAX), ((u64::MAX as u128 * 2) % P as u128) as u64);
}

#[test]
fn too_small_grid_overflows() {
    let r = check_example(1, P, &known(3, 5, 1), &vec![vec![1, 35]]);
    assert_eq!(
        r,
        Err(RunError::Synthesis(SynthesisError::GridOverflow {
            region: "add".to_string(),
            required: 3,
            available: 2,
        }))
    );
    let r = check_example(0, P, &known(3, 5, 1), &vec![vec![1, 35]]);
    assert!(matches!(r, Err(RunError::Synthesis(SynthesisError::GridOverflow { .. }))));
}

#[test]
fn bad_parameters_are_refused() {
    assert_eq!(check_example(4, 1, &known(3, 5, 1), &vec![]), Err(RunError::Config(ConfigError::BadParameters)));
    assert_eq!(check_example(25, P, &known(3, 5, 1), &vec![]), Err(RunError::Config(ConfigError::BadParameters)));
    assert!(ConstraintSystem::new(24, 2).is_ok());
}

#[test]
fn configuration_errors() {
    let mut cs = ConstraintSystem::new(3, 7).unwrap();
    let a = cs.advice_column();
    let f = cs.fixed_column();
    let ghost = Column { kind: ColumnKind::Instance, index: 0 };
    assert_eq!(cs.enable_equality(ghost), Err(ConfigError::UnknownColumn));
    assert_eq!(cs.enable_equality(a), Ok(()));
    assert_eq!(
        cs.create_gate("g".to_string(), Some(a), vec![Expr::Query(a, 0)]),
        Err(ConfigError::SelectorNotFixed)
    );
    assert_eq!(cs.create_gate("g".to_string(), Some(f), vec![]), Err(ConfigError::EmptyGate));
    assert_eq!(
        cs.create_gate("g".to_string(), None, vec![Expr::Query(ghost, 0)]),
        Err(ConfigError::UnknownColumn)
    );
    assert_eq!(cs.create_gate("g".to_string(), Some(f), vec![Expr::Query(a, -1)]), Ok(()));
    assert_eq!(cs.gates.len(), 1);
}

#[test]
fn copy_constraint_errors() {
    let mut cs = ConstraintSystem::new(2, 7).unwrap();
    let a = cs.advice_column();
    let b = cs.advice_column();
    let f = cs.fixed_column();
    let i = cs.instance_column();
    cs.enable_equality(a).unwrap();
    cs.enable_equality(i).unwrap();
    let cfg = cs.finalize();
    let mut layout = Layout::new(&cfg);
    let ca = Cell { column: a, row: 0 };
    let cb = Cell { column: b, row: 0 };
    assert_eq!(layout.constrain_equal(&cfg, ca, cb), Err(SynthesisError::EqualityNotEnabled(b)));
    assert_eq!(layout.constrain_equal(&cfg, cb, ca), Err(SynthesisError::EqualityNotEnabled(b)));
    let far = Cell { column: a, row: 4 };
    assert_eq!(layout.constrain_equal(&cfg, ca, far), Err(SynthesisError::CellOutOfGrid(far)));
    assert_eq!(layout.constrain_instance(&cfg, ca, f, 0), Err(SynthesisError::NotInstanceColumn(f)));
    assert_eq!(
        layout.constrain_instance(&cfg, ca, i, 9),
        Err(SynthesisError::CellOutOfGrid(Cell { column: i, row: 9 }))
    );
    assert_eq!(layout.constrain_instance(&cfg, ca, i, 3), Ok(()));
    assert!(layout.copies.len() == 1);
    // the binding reads the public input; rows past the vector read zero
    assert!(verify(&cfg, &layout, &vec![vec![0, 0, 0, 0]]).is_empty());
    assert!(verify(&cfg, &layout, &vec![]).is_empty());
    assert_eq!(verify(&cfg, &layout, &vec![vec![0, 0, 0, 5]]).len(), 1);
}

#[test]
fn regions_pack_from_row_zero() {
    let mut cs = ConstraintSystem::new(3, 7).unwrap();
    cs.advice_column();
    let cfg = cs.finalize();
    let mut layout = Layout::new(&cfg);
    let r1 = layout.assign_region(&cfg, "first".to_string(), 3).unwrap();
    let r2 = layout.assign_region(&cfg, "second".to_string(), 5).unwrap();
    assert_eq!((r1.start, r1.height, r2.start, r2.height), (0, 3, 3, 5));
    assert_eq!(
        layout.assign_region(&cfg, "third".to_string(), 1),
        Err(SynthesisError::GridOverflow { region: "third".to_string(), required: 9, available: 8 })
    );
    assert_eq!(layout.assign_region(&cfg, "empty".to_string(), 0).unwrap().start, 8);
}

#[test]
fn chip_rows_and_exposure() {
    let mut cs = ConstraintSystem::new(2, 7).unwrap();
    let tc = TutorialChip::configure(&mut cs).unwrap();
    let cfg = cs.finalize();
    let chip = TutorialChip::construct(tc);
    let mut layout = Layout::new(&cfg);
    let (a, b, c) = chip.raw_multiply(&cfg, &mut layout, Value::Known((3, 4, 5))).unwrap();
    assert_eq!((a.row, b.row, c.row), (0, 0, 0));
    let (d, e, g) = chip.raw_add(&cfg, &mut layout, Value::Known((1, 2, 3))).unwrap();
    assert_eq!((d.column, e.column, g.column), (tc.l, tc.r, tc.o));
    chip.copy(&cfg, &mut layout, c, g).unwrap();
    chip.expose_public(&cfg, &mut layout, g, 0).unwrap();
    // 3 * 4 = 12 = 5 mod 7; 1 + 2 = 3; but 5 != 3, and public 3 == 3
    let fails = verify(&cfg, &layout, &vec![vec![3]]);
    assert_eq!(fails, vec![Failure::Copy { index: 0, left: c, right: g }]);
}

#[test]
fn every_mutated_output_cell_breaks_its_gate_row() {
    let s = synthesized(4, P, &known(3, 5, 1));
    let public = vec![vec![1, 35]];
    for row in 0..4usize {
        let mut advice = s.layout.advice.clone();
        let idx = s.tc.o.index * s.layout.n + row;
        advice[idx] = advice[idx] + 2;
        let mutated = Layout {
            n: s.layout.n,
            advice,
            fixed: s.layout.fixed.clone(),
            next_row: s.layout.next_row,
            regions: Vec::new(),
            copies: s.layout.copies.clone(),
        };
        let fails = verify(&s.cfg, &mutated, &public);
        assert!(
            fails.contains(&Failure::Gate { gate: 0, poly: 0, row, residual: P - 2 }),
            "row {}: {:?}",
            row,
            fails
        );
    }
}

#[test]
fn duplicate_gate_name_is_refused() {
    let mut cs = ConstraintSystem::new(2, 7).unwrap();
    let a = cs.advice_column();
    assert_eq!(cs.create_gate("g".to_string(), None, vec![Expr::Query(a, 0)]), Ok(()));
    assert_eq!(
        cs.create_gate("g".to_string(), None, vec![Expr::Query(a, 0)]),
        Err(ConfigError::DuplicateGate)
    );
    assert_eq!(cs.create_gate("h".to_string(), None, vec![Expr::Query(a, 0)]), Ok(()));
}

#[test]
fn second_configure_is_a_duplicate_gate() {
    let mut cs = ConstraintSystem::new(3, 7).unwrap();
    let tc = TutorialCircuit::configure(&mut cs).unwrap();
    assert_eq!((tc.l.index, tc.r.index, tc.o.index), (0, 1, 2));
    assert_eq!((tc.sl.index, tc.sr.index, tc.sm.index, tc.so.index, tc.sc.index), (0, 1, 2, 3, 4));
    assert_eq!(tc.pi, Column { kind: ColumnKind::Instance, index: 0 });
    assert_eq!(cs.advice_eq, vec![true, true, true]);
    assert_eq!(cs.fixed_eq, vec![false, false, false, false, false]);
    assert_eq!(cs.instance_eq, vec![true]);
    assert_eq!(cs.gates[0].name, "plonk");
    assert_eq!(TutorialCircuit::configure(&mut cs).unwrap_err(), ConfigError::DuplicateGate);
    assert_eq!(TutorialChip::configure(&mut cs).unwrap_err(), ConfigError::DuplicateGate);
    assert_eq!(cs.advice_eq.len(), 3);
    assert_eq!(cs.gates.len(), 1);
}

fn overflow(region: &str, required: usize, available: usize) -> SynthesisError {
    SynthesisError::GridOverflow { region: region.to_string(), required, available }
}

#[test]
fn synthesize_overflow_names_the_first_region_that_does_not_fit() {
    for (k, name) in [(0u32, "multiply"), (1, "add")].iter() {
        let mut cs = ConstraintSystem::new(*k, P).unwrap();
        let tc = TutorialCircuit::configure(&mut cs).unwrap();
        let cfg = cs.finalize();
        let mut layout = Layout::new(&cfg);
        let n = layout.n;
        let r = known(3, 5, 1).synthesize(&cfg, tc, &mut layout);
        assert_eq!(r, Err(overflow(name, n + 1, n)));
    }
}

#[test]
fn chip_row_overflow_and_copy_errors() {
    let mut cs = ConstraintSystem::new(0, 7).unwrap();
    let tc = TutorialChip::configure(&mut cs).unwrap();
    let cfg = cs.finalize();
    let chip = TutorialChip::construct(tc);
    let mut layout = Layout::new(&cfg);
    let (a, _, _) = chip.raw_multiply(&cfg, &mut layout, Value::Known((1, 1, 1))).unwrap();
    assert_eq!(chip.raw_multiply(&cfg, &mut layout, Value::Unknown), Err(overflow("multiply", 2, 1)));
    assert_eq!(chip.raw_add(&cfg, &mut layout, Value::Unknown), Err(overflow("add", 2, 1)));
    let sel = Cell { column: tc.sl, row: 0 };
    assert_eq!(chip.copy(&cfg, &mut layout, sel, a), Err(SynthesisError::EqualityNotEnabled(tc.sl)));
    assert_eq!(chip.copy(&cfg, &mut layout, a, sel), Err(SynthesisError::EqualityNotEnabled(tc.sl)));
    assert_eq!(chip.expose_public(&cfg, &mut layout, sel, 0), Err(SynthesisError::EqualityNotEnabled(tc.sl)));
    assert_eq!(
        chip.expose_public(&cfg, &mut layout, a, 1),
        Err(SynthesisError::CellOutOfGrid(Cell { column: tc.pi, row: 1 }))
    );
    assert!(layout.copies.is_empty());
}

#[test]
fn wrong_constant_reported_by_check_example() {
    let fails = check_example(4, P, &known(3, 5, 1), &vec![vec![2, 35]]).unwrap();
    let r3 = Cell { column: Column { kind: ColumnKind::Advice, index: 1 }, row: 3 };
    let pi0 = Cell { column: Column { kind: ColumnKind::Instance, index: 0 }, row: 0 };
    assert_eq!(fails, vec![Failure::Copy { index: 5, left: r3, right: pi0 }]);
    let fails = check_example(4, P, &known(3, 5, 1), &vec![vec![2, 34]]).unwrap();
    assert_eq!(fails.len(), 2);
}

#[test]
fn public_inputs_compare_as_field_elements() {
    // 12 = 1 and 35 = 2 mod 11
    let fails = check_example(2, 11, &known(3, 5, 1), &vec![vec![12, 35]]).unwrap();
    assert!(fails.is_empty());
}
