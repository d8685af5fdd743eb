//! Running the example circuit end to end: configure once, synthesize the
//! witness onto a fresh grid, and check it against the public inputs.
use vstd::prelude::*;
use crate::check::{copy_failure, is_failure, verify, Failure};
use crate::circuit::{lemma_rows_mono, rows_of, Cell, Column, ColumnKind, ConfigError, ConstraintSystem, MAX_K};
use crate::layout::{public_value, Layout, SynthesisError, Value};
use crate::theorems::{example_output, lemma_example_check};
use crate::tutorial::TutorialCircuit;

verus! {

#[derive(Clone, Debug, PartialEq, Eq)]
pub enum RunError {
    Config(ConfigError),
    Synthesis(SynthesisError),
}

/// The failure reported when the public input at instance row 0 is not the
/// constant: the binding of `r` at row 3.
pub open spec fn constant_binding_failure() -> Failure {
    Failure::Copy {
        index: 5,
        left: Cell { column: Column { kind: ColumnKind::Advice, index: 1 }, row: 3 },
        right: Cell { column: Column { kind: ColumnKind::Instance, index: 0 }, row: 0 },
    }
}

/// The failure reported when the public input at instance row 1 is not
/// `x^2 + y^2 + c`: the binding of `o` at row 3.
pub open spec fn result_binding_failure() -> Failure {
    Failure::Copy {
        index: 6,
        left: Cell { column: Column { kind: ColumnKind::Advice, index: 2 }, row: 3 },
        right: Cell { column: Column { kind: ColumnKind::Instance, index: 0 }, row: 1 },
    }
}

/// What checking the example with known `x`, `y` reports: the binding of
/// the constant fails exactly when `public[0][0]` is not `c` in the field,
/// the binding of the result exactly when `public[0][1]` is not
/// `x^2 + y^2 + c`, and nothing else fails.
pub open spec fn example_report(modulus: int, x: u64, y: u64, c: u64, public: Seq<Vec<u64>>, fails: Seq<Failure>) -> bool {
    let c_ok = public_value(public, 0, 0) % modulus == c as int % modulus;
    let z_ok = public_value(public, 0, 1) % modulus == example_output(modulus, x, y, c);
    &&& (fails.len() == 0 <==> c_ok && z_ok)
    &&& (fails.contains(constant_binding_failure()) <==> !c_ok)
    &&& (fails.contains(result_binding_failure()) <==> !z_ok)
    &&& forall|i: int|
        0 <= i < fails.len() ==> #[trigger] fails[i] == constant_binding_failure() || fails[i]
            == result_binding_failure()
}

/// Configures the example circuit on a grid of `2^k` rows over the field of
/// the given modulus, synthesizes `circuit`, and returns every violated
/// constraint when checked against `public` (`public[0]` feeds the instance
/// column). Fails on bad parameters, and with a grid overflow when the grid
/// has fewer than the four rows the circuit needs.
pub fn check_example(k: u32, modulus: u64, circuit: &TutorialCircuit, public: &Vec<Vec<u64>>) -> (r: Result<
    Vec<Failure>,
    RunError,
>)
    ensures
        (k > MAX_K || modulus < 2) <==> r == Err::<Vec<Failure>, RunError>(RunError::Config(ConfigError::BadParameters)),
        (k <= MAX_K && modulus >= 2 && k < 2) <==> (r matches Err(RunError::Synthesis(SynthesisError::GridOverflow { .. }))),
        r.is_ok() <==> (2 <= k <= MAX_K && modulus >= 2),
        r matches Ok(fails) ==> forall|x: u64, y: u64|
            circuit.x == Value::Known(x) && circuit.y == Value::Known(y) ==> #[trigger] example_report(
                modulus as int,
                x,
                y,
                circuit.constant,
                public@,
                fails@,
            ),
{
    let mut cs = match ConstraintSystem::new(k, modulus) {
        Ok(cs) => cs,
        Err(e) => {
            return Err(RunError::Config(e));
        },
    };
    let tc = match TutorialCircuit::configure(&mut cs) {
        Ok(tc) => tc,
        Err(e) => {
            return Err(RunError::Config(e));
        },
    };
    let cfg = cs.finalize();
    assert(tc.fits(&cfg));
    assert(cfg.gates@.len() == 1);
    proof {
        crate::circuit::lemma_rows_bound(k as nat);
        reveal_with_fuel(rows_of, 3);
        if k >= 2 {
            lemma_rows_mono(2, k as nat);
        } else {
            lemma_rows_mono(k as nat, 1);
        }
    }
    assert(cfg.advice_eq@.len() == 3 && cfg.fixed_eq@.len() == 5);
    assert(usize::MAX >= 0xffff_ffff);
    let mut layout = Layout::new(&cfg);
    let ghost fresh = layout;
    match circuit.synthesize(&cfg, tc, &mut layout) {
        Ok(()) => {},
        Err(e) => {
            return Err(RunError::Synthesis(e));
        },
    }
    let fails = verify(&cfg, &layout, public);
    proof {
        assert forall|x: u64, y: u64|
            circuit.x == Value::Known(x) && circuit.y == Value::Known(y) implies #[trigger] example_report(
                modulus as int,
                x,
                y,
                circuit.constant,
                public@,
                fails@,
            ) by {
            lemma_example_check(&cfg, tc, fresh, layout, *circuit, x, y, public@);
            assert(copy_failure(layout, 5) == constant_binding_failure());
            assert(copy_failure(layout, 6) == result_binding_failure());
            assert forall|i: int| 0 <= i < fails@.len() implies #[trigger] fails@[i] == constant_binding_failure()
                || fails@[i] == result_binding_failure() by {
                assert(is_failure(&cfg, layout, public@, fails@[i]));
            }
            if fails@.contains(constant_binding_failure()) {
                let i = choose|i: int| 0 <= i < fails@.len() && fails@[i] == constant_binding_failure();
                assert(is_failure(&cfg, layout, public@, fails@[i]));
            }
            if fails@.contains(result_binding_failure()) {
                let i = choose|i: int| 0 <= i < fails@.len() && fails@[i] == result_binding_failure();
                assert(is_failure(&cfg, layout, public@, fails@[i]));
            }
            if fails@.len() > 0 {
                assert(fails@.contains(fails@[0]));
            }
        }
    }
    Ok(fails)
}

} // verus!
