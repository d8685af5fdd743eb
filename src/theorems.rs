//! Laws of the engine and of the example circuit, proved over the checker's
//! and the synthesizer's specifications.
use vstd::prelude::*;
use vstd::arithmetic::div_mod::{
    lemma_mod_add_multiples_vanish,
    lemma_add_mod_noop, lemma_fundamental_div_mod, lemma_mod_self_0, lemma_mod_pos_bound, lemma_mul_mod_noop, lemma_small_mod,
};
use crate::field::{fadd, fmul, fneg};
use crate::check::{copy_violated, eval, gate_violated, in_grid, satisfied};
use crate::circuit::{Cell, ColumnKind, Config, Expr};
use crate::layout::{copyable, lemma_cell_index, lemma_index_inj, public_value, wrap, Layout, Value};
use crate::tutorial::{circuit_copies, circuit_placed, plonk_expr, same_grid, sq, witness_rows, TutorialCircuit, TutorialConfig};

verus! {

/// Declaring a copy constraint `(a, b)` and then `(b, a)` is the same, for
/// satisfaction, as declaring `(a, b)` once; so is declaring `(a, b)` twice.
pub proof fn lemma_copy_order_and_repeat(
    cfg: &Config,
    once: Layout,
    both: Layout,
    twice: Layout,
    public: Seq<Vec<u64>>,
    base: Seq<(Cell, Cell)>,
    a: Cell,
    b: Cell,
)
    requires
        same_grid(once, both),
        same_grid(once, twice),
        once.copies@ == base.push((a, b)),
        both.copies@ == base.push((a, b)).push((b, a)),
        twice.copies@ == base.push((a, b)).push((a, b)),
    ensures
        satisfied(cfg, both, public) == satisfied(cfg, once, public),
        satisfied(cfg, twice, public) == satisfied(cfg, once, public),
{
    let last = base.len() as int;
    assert forall|i: int| 0 <= i <= last implies copy_violated(cfg, both, public, i) == copy_violated(cfg, once, public, i)
        && copy_violated(cfg, twice, public, i) == copy_violated(cfg, once, public, i) by {
        assert(both.copies@[i] == once.copies@[i]);
        assert(twice.copies@[i] == once.copies@[i]);
    }
    assert(copy_violated(cfg, both, public, last + 1) == copy_violated(cfg, once, public, last));
    assert(copy_violated(cfg, twice, public, last + 1) == copy_violated(cfg, once, public, last));
    lemma_gates_agree(cfg, once, both, public);
    lemma_gates_agree(cfg, once, twice, public);
    lemma_copies_agree(cfg, once, both, public);
    lemma_copies_agree(cfg, once, twice, public);
}

/// Two layouts with the same grid violate the same gates.
proof fn lemma_gates_agree(cfg: &Config, l1: Layout, l2: Layout, public: Seq<Vec<u64>>)
    requires
        same_grid(l1, l2),
    ensures
        (forall|g: int, j: int, row: int|
            in_grid(cfg, l1, g, j, row) ==> !#[trigger] gate_violated(cfg, l1, public, g, j, row))
        == (forall|g: int, j: int, row: int|
            in_grid(cfg, l2, g, j, row) ==> !#[trigger] gate_violated(cfg, l2, public, g, j, row)),
{
    assert forall|g: int, j: int, row: int|
        #[trigger] gate_violated(cfg, l1, public, g, j, row) == gate_violated(cfg, l2, public, g, j, row)
        && in_grid(cfg, l1, g, j, row) == in_grid(cfg, l2, g, j, row) by {
        lemma_eval_same_grid(cfg.gates@[g].polys@[j], l1, l2, public, cfg.field.p(), row);
    }
    if forall|g: int, j: int, row: int|
        in_grid(cfg, l1, g, j, row) ==> !#[trigger] gate_violated(cfg, l1, public, g, j, row) {
        assert forall|g: int, j: int, row: int|
            in_grid(cfg, l2, g, j, row) implies !#[trigger] gate_violated(cfg, l2, public, g, j, row) by {
            assert(gate_violated(cfg, l1, public, g, j, row) == gate_violated(cfg, l2, public, g, j, row));
        }
    }
    if forall|g: int, j: int, row: int|
        in_grid(cfg, l2, g, j, row) ==> !#[trigger] gate_violated(cfg, l2, public, g, j, row) {
        assert forall|g: int, j: int, row: int|
            in_grid(cfg, l1, g, j, row) implies !#[trigger] gate_violated(cfg, l1, public, g, j, row) by {
            assert(gate_violated(cfg, l1, public, g, j, row) == gate_violated(cfg, l2, public, g, j, row));
        }
    }
}

/// Copy constraints of `more` beyond those of `less` repeat the last of
/// `less` (in either order), so both are met exactly together.
proof fn lemma_copies_agree(cfg: &Config, less: Layout, more: Layout, public: Seq<Vec<u64>>)
    requires
        less.copies@.len() > 0,
        more.copies@.len() == less.copies@.len() + 1,
        forall|i: int| 0 <= i < less.copies@.len() ==> copy_violated(cfg, more, public, i) == copy_violated(cfg, less, public, i),
        copy_violated(cfg, more, public, less.copies@.len() as int) == copy_violated(cfg, less, public, less.copies@.len() - 1),
    ensures
        (forall|i: int| 0 <= i < more.copies@.len() ==> !#[trigger] copy_violated(cfg, more, public, i))
            == (forall|i: int| 0 <= i < less.copies@.len() ==> !#[trigger] copy_violated(cfg, less, public, i)),
{
    if forall|i: int| 0 <= i < less.copies@.len() ==> !#[trigger] copy_violated(cfg, less, public, i) {
        assert forall|i: int| 0 <= i < more.copies@.len() implies !#[trigger] copy_violated(cfg, more, public, i) by {
            if i == less.copies@.len() {
                assert(!copy_violated(cfg, less, public, less.copies@.len() - 1));
            }
        }
    }
    if forall|i: int| 0 <= i < more.copies@.len() ==> !#[trigger] copy_violated(cfg, more, public, i) {
        assert forall|i: int| 0 <= i < less.copies@.len() implies !#[trigger] copy_violated(cfg, less, public, i) by {
            assert(!copy_violated(cfg, more, public, i));
        }
    }
}

/// Gate values depend on the grid alone, not on the declared constraints.
pub proof fn lemma_eval_same_grid(e: Expr, l1: Layout, l2: Layout, public: Seq<Vec<u64>>, p: int, row: int)
    requires
        same_grid(l1, l2),
    ensures
        eval(e, l1, public, p, row) == eval(e, l2, public, p, row),
    decreases e,
{
    match e {
        Expr::Constant(_) => {},
        Expr::Query(_, _) => {},
        Expr::Negated(a) => lemma_eval_same_grid(*a, l1, l2, public, p, row),
        Expr::Sum(a, b) => {
            lemma_eval_same_grid(*a, l1, l2, public, p, row);
            lemma_eval_same_grid(*b, l1, l2, public, p, row);
        },
        Expr::Product(a, b) => {
            lemma_eval_same_grid(*a, l1, l2, public, p, row);
            lemma_eval_same_grid(*b, l1, l2, public, p, row);
        },
    }
}

/// Two syntheses of the same circuit, with the same configuration and
/// witness, from the same starting layout, give the same grid, the same cell
/// coordinates and the same constraints.
pub proof fn lemma_synthesis_deterministic(
    cfg: &Config,
    tc: TutorialConfig,
    before: Layout,
    first: Layout,
    second: Layout,
    circuit: TutorialCircuit,
)
    requires
        before.wf_for(cfg),
        circuit_placed(cfg, tc, before, first, circuit),
        circuit_placed(cfg, tc, before, second, circuit),
    ensures
        first.advice@ == second.advice@,
        first.fixed@ == second.fixed@,
        first.copies@ == second.copies@,
        first.next_row == second.next_row,
{
    let n = before.n as int;
    assert forall|i: int| 0 <= i < first.advice@.len() implies first.advice@[i] == second.advice@[i] by {
        lemma_split_index(i, n, cfg.advice_eq@.len() as int);
        assert(first.advice_at(i / n, i % n) == second.advice_at(i / n, i % n));
    }
    assert(first.advice@ =~= second.advice@);
    assert forall|i: int| 0 <= i < first.fixed@.len() implies first.fixed@[i] == second.fixed@[i] by {
        lemma_split_index(i, n, cfg.fixed_eq@.len() as int);
        assert(first.fixed_at(i / n, i % n) == second.fixed_at(i / n, i % n));
    }
    assert(first.fixed@ =~= second.fixed@);
}

/// A position of a grid of `cols` columns of `n` rows is the cell
/// `(i / n, i % n)`.
proof fn lemma_split_index(i: int, n: int, cols: int)
    requires
        0 <= i < cols * n,
        n > 0,
    ensures
        i == (i / n) * n + i % n,
        0 <= i / n < cols,
        0 <= i % n < n,
{
    lemma_fundamental_div_mod(i, n);
    lemma_mod_pos_bound(i, n);
    assert((i / n) * n == n * (i / n)) by (nonlinear_arith);
    assert(0 <= i / n < cols) by (nonlinear_arith)
        requires
            0 <= i < cols * n,
            n > 0,
            i == n * (i / n) + i % n,
            0 <= i % n < n,
    ;
}

/// The configuration that `TutorialCircuit::configure` produces on an empty
/// constraint system: the chip's columns and the single gate "plonk".
pub open spec fn example_config(cfg: &Config, tc: TutorialConfig) -> bool {
    &&& cfg.wf()
    &&& tc.fits(cfg)
    &&& cfg.gates@.len() == 1
    &&& cfg.gates@[0].selector.is_none()
    &&& cfg.gates@[0].polys@ == seq![plonk_expr(tc)]
}

/// A layout as `Layout::new` returns it.
pub open spec fn blank(cfg: &Config, l: Layout) -> bool {
    &&& l.wf_for(cfg)
    &&& l.next_row == 0
    &&& l.copies@.len() == 0
    &&& forall|i: int| 0 <= i < l.advice@.len() ==> l.advice@[i] == 0
    &&& forall|i: int| 0 <= i < l.fixed@.len() ==> l.fixed@[i] == 0
}

/// `x^2 + y^2 + c` in the field.
pub open spec fn example_output(p: int, x: u64, y: u64, c: u64) -> int {
    fadd(p, fadd(p, sq(p, x) as int, sq(p, y) as int), c as int)
}

/// The chip's polynomial on given cell values.
pub open spec fn plonk_value(p: int, l: int, r: int, o: int, sl: int, sr: int, sm: int, so: int, sc: int) -> int {
    fadd(
        p,
        fadd(
            p,
            fadd(p, fadd(p, fmul(p, l % p, sl % p), fmul(p, r % p, sr % p)), fmul(p, fmul(p, l % p, r % p), sm % p)),
            fneg(p, fmul(p, o % p, so % p)),
        ),
        sc % p,
    )
}

proof fn lemma_eval_plonk(cfg: &Config, tc: TutorialConfig, l: Layout, public: Seq<Vec<u64>>, row: int)
    requires
        0 <= row < l.n,
        tc.fits(cfg),
    ensures
        eval(plonk_expr(tc), l, public, cfg.field.p(), row) == plonk_value(
            cfg.field.p(),
            l.advice_at(tc.l.index as int, row) as int,
            l.advice_at(tc.r.index as int, row) as int,
            l.advice_at(tc.o.index as int, row) as int,
            l.fixed_at(tc.sl.index as int, row) as int,
            l.fixed_at(tc.sr.index as int, row) as int,
            l.fixed_at(tc.sm.index as int, row) as int,
            l.fixed_at(tc.so.index as int, row) as int,
            l.fixed_at(tc.sc.index as int, row) as int,
        ),
{
    lemma_small_mod(row as nat, l.n as nat);
    assert(wrap(row, 0, l.n as int) == row);
    reveal_with_fuel(eval, 7);
}

/// `m + (-m) = 0` for a reduced `m`.
proof fn lemma_add_neg(p: int, m: int)
    requires
        p > 0,
        0 <= m < p,
    ensures
        fadd(p, m, fneg(p, m)) == 0,
{
    lemma_small_mod(m as nat, p as nat);
    lemma_small_mod(0, p as nat);
    lemma_mod_self_0(p);
    if m == 0 {
        assert(fneg(p, m) == 0);
    } else {
        lemma_small_mod((p - m) as nat, p as nat);
    }
}

proof fn lemma_plonk_zero_row(p: int)
    requires
        p > 0,
    ensures
        plonk_value(p, 0, 0, 0, 0, 0, 0, 0, 0) == 0,
{
    lemma_small_mod(0, p as nat);
    lemma_mod_self_0(p);
}

/// `m - v` is not zero for distinct reduced `m`, `v`.
proof fn lemma_add_neg_nonzero(p: int, m: int, v: int)
    requires
        p > 0,
        0 <= m < p,
        0 <= v < p,
        m != v,
    ensures
        fadd(p, m, fneg(p, v)) != 0,
{
    lemma_small_mod(m as nat, p as nat);
    lemma_small_mod(v as nat, p as nat);
    lemma_small_mod(0, p as nat);
    lemma_mod_self_0(p);
    if v == 0 {
        assert(fneg(p, v) == 0);
    } else {
        lemma_small_mod((p - v) as nat, p as nat);
        assert(fneg(p, v) == p - v);
        if m < v {
            lemma_small_mod((m + p - v) as nat, p as nat);
        } else {
            lemma_mod_add_multiples_vanish(m - v, p);
            assert(m + (p - v) == p + (m - v));
            lemma_small_mod((m - v) as nat, p as nat);
        }
    }
}

/// On a multiplication row the polynomial is `a*a - o`.
proof fn lemma_plonk_mult_row(p: int, a: u64, o: int)
    requires
        p > 1,
        p <= u64::MAX,
        o >= 0,
    ensures
        plonk_value(p, a as int, a as int, o, 0, 0, 1, 1, 0) == fadd(p, sq(p, a) as int, fneg(p, o % p)),
        0 <= sq(p, a) < p,
        0 <= o % p < p,
{
    let m = (a as int * a as int) % p;
    lemma_mod_pos_bound(a as int * a as int, p);
    lemma_mod_pos_bound(o, p);
    assert(sq(p, a) as int == m);
    lemma_mul_mod_noop(a as int, a as int, p);
    lemma_small_mod(m as nat, p as nat);
    lemma_small_mod((o % p) as nat, p as nat);
    lemma_small_mod(1, p as nat);
    let x = a as int % p;
    lemma_small_mod(0, p as nat);
    lemma_mod_self_0(p);
    assert(fmul(p, x, 0) == 0);
    assert(fmul(p, fmul(p, x, x), 1) == m);
    assert(fmul(p, o % p, 1) == o % p);
    let z = fadd(p, fmul(p, x, 0), fmul(p, x, 0));
    assert(z == 0);
    let q = fadd(p, z, fmul(p, fmul(p, x, x), 1));
    assert(q == m);
    let big = fadd(p, q, fneg(p, fmul(p, o % p, 1)));
    lemma_mod_pos_bound(q + fneg(p, fmul(p, o % p, 1)), p);
    lemma_small_mod(big as nat, p as nat);
    assert(fadd(p, big, 0) == big);
}

/// On an addition row the polynomial is `u + w - o`.
proof fn lemma_plonk_add_row(p: int, u: int, w: int, o: int)
    requires
        p > 1,
        u >= 0,
        w >= 0,
        o >= 0,
    ensures
        plonk_value(p, u, w, o, 1, 1, 0, 1, 0) == fadd(p, fadd(p, u, w), fneg(p, o % p)),
        0 <= fadd(p, u, w) < p,
        0 <= o % p < p,
{
    let x = u % p;
    let y = w % p;
    lemma_mod_pos_bound(u, p);
    lemma_mod_pos_bound(w, p);
    lemma_mod_pos_bound(u + w, p);
    lemma_mod_pos_bound(o, p);
    lemma_small_mod(1, p as nat);
    lemma_small_mod(0, p as nat);
    lemma_mod_self_0(p);
    lemma_small_mod(x as nat, p as nat);
    lemma_small_mod(y as nat, p as nat);
    lemma_small_mod((o % p) as nat, p as nat);
    lemma_add_mod_noop(u, w, p);
    assert(fmul(p, x, 1) == x);
    assert(fmul(p, y, 1) == y);
    assert(fmul(p, fmul(p, x, y), 0) == 0);
    assert(fmul(p, o % p, 1) == o % p);
    let t = fadd(p, x, y);
    assert(t == fadd(p, u, w));
    lemma_small_mod(t as nat, p as nat);
    let q = fadd(p, t, fmul(p, fmul(p, x, y), 0));
    assert(q == t);
    let big = fadd(p, q, fneg(p, fmul(p, o % p, 1)));
    lemma_mod_pos_bound(q + fneg(p, fmul(p, o % p, 1)), p);
    lemma_small_mod(big as nat, p as nat);
    assert(fadd(p, big, 0) == big);
}

/// The grid that synthesis of a known witness leaves on a blank layout.
proof fn lemma_example_cells(
    cfg: &Config,
    tc: TutorialConfig,
    fresh: Layout,
    l: Layout,
    circuit: TutorialCircuit,
    col: int,
    rr: int,
)
    requires
        example_config(cfg, tc),
        blank(cfg, fresh),
        circuit_placed(cfg, tc, fresh, l, circuit),
        0 <= rr < fresh.n,
    ensures
        0 <= col < cfg.advice_eq@.len() ==> l.advice_at(col, rr) == (if rr < 4 {
            tc.row_advice(witness_rows(cfg.field.p(), circuit.x, circuit.y, circuit.constant)[rr], col, 0)
        } else {
            0
        }),
        0 <= col < cfg.fixed_eq@.len() ==> l.fixed_at(col, rr) == (if rr < 4 && tc.enabled(rr < 2, col) {
            1u64
        } else {
            0
        }),
{
    if 0 <= col < cfg.advice_eq@.len() {
        lemma_cell_index(col, rr, fresh.n as int, cfg.advice_eq@.len() as int);
        assert(fresh.advice_at(col, rr) == 0);
    }
    if 0 <= col < cfg.fixed_eq@.len() {
        lemma_cell_index(col, rr, fresh.n as int, cfg.fixed_eq@.len() as int);
        assert(fresh.fixed_at(col, rr) == 0);
    }
}

/// Checking the example circuit, synthesized from known `x`, `y` on a blank
/// layout: every gate holds at every row, every copy constraint between
/// advice cells holds, and each public-input binding fails exactly when the
/// public input at its row differs from the computed value (`c` at row 0,
/// `x^2 + y^2 + c` at row 1).
pub proof fn lemma_example_check(
    cfg: &Config,
    tc: TutorialConfig,
    fresh: Layout,
    l: Layout,
    circuit: TutorialCircuit,
    x: u64,
    y: u64,
    public: Seq<Vec<u64>>,
)
    requires
        example_config(cfg, tc),
        blank(cfg, fresh),
        circuit.x == Value::Known(x),
        circuit.y == Value::Known(y),
        circuit_placed(cfg, tc, fresh, l, circuit),
    ensures
        l.copies@.len() == 7,
        forall|g: int, j: int, row: int|
            in_grid(cfg, l, g, j, row) ==> !#[trigger] gate_violated(cfg, l, public, g, j, row),
        forall|i: int| 0 <= i < 5 ==> !#[trigger] copy_violated(cfg, l, public, i),
        copy_violated(cfg, l, public, 5) <==> public_value(public, tc.pi.index as int, 0) % cfg.field.p()
            != circuit.constant as int % cfg.field.p(),
        copy_violated(cfg, l, public, 6) <==> public_value(public, tc.pi.index as int, 1) % cfg.field.p()
            != example_output(cfg.field.p(), x, y, circuit.constant),
{
    let p = cfg.field.p();
    let c = circuit.constant;
    assert(l.copies@ =~= circuit_copies(tc, 0));
    assert forall|g: int, j: int, row: int| in_grid(cfg, l, g, j, row) implies !#[trigger] gate_violated(cfg, l, public, g, j, row) by {
        assert(g == 0 && j == 0);
        lemma_eval_plonk(cfg, tc, l, public, row);
        lemma_example_cells(cfg, tc, fresh, l, circuit, tc.l.index as int, row);
        lemma_example_cells(cfg, tc, fresh, l, circuit, tc.r.index as int, row);
        lemma_example_cells(cfg, tc, fresh, l, circuit, tc.o.index as int, row);
        lemma_example_cells(cfg, tc, fresh, l, circuit, tc.sl.index as int, row);
        lemma_example_cells(cfg, tc, fresh, l, circuit, tc.sr.index as int, row);
        lemma_example_cells(cfg, tc, fresh, l, circuit, tc.sm.index as int, row);
        lemma_example_cells(cfg, tc, fresh, l, circuit, tc.so.index as int, row);
        lemma_example_cells(cfg, tc, fresh, l, circuit, tc.sc.index as int, row);
        if row < 4 {
            lemma_example_row_polynomial(cfg, tc, fresh, l, circuit, x, y, public, row);
            let o = l.advice_at(tc.o.index as int, row) as int;
            lemma_small_mod(o as nat, p as nat);
            lemma_add_neg(p, o);
        } else {
            lemma_plonk_zero_row(p);
        }
    }
    lemma_mod_pos_bound(x as int * x as int, p);
    lemma_mod_pos_bound(y as int * y as int, p);
    lemma_mod_pos_bound(sq(p, x) as int + sq(p, y) as int, p);
    lemma_mod_pos_bound(fadd(p, sq(p, x) as int, sq(p, y) as int) + c as int, p);
    lemma_example_cells(cfg, tc, fresh, l, circuit, tc.l.index as int, 0);
    lemma_example_cells(cfg, tc, fresh, l, circuit, tc.r.index as int, 0);
    lemma_example_cells(cfg, tc, fresh, l, circuit, tc.o.index as int, 0);
    lemma_example_cells(cfg, tc, fresh, l, circuit, tc.l.index as int, 1);
    lemma_example_cells(cfg, tc, fresh, l, circuit, tc.r.index as int, 1);
    lemma_example_cells(cfg, tc, fresh, l, circuit, tc.o.index as int, 1);
    lemma_example_cells(cfg, tc, fresh, l, circuit, tc.l.index as int, 2);
    lemma_example_cells(cfg, tc, fresh, l, circuit, tc.r.index as int, 2);
    lemma_example_cells(cfg, tc, fresh, l, circuit, tc.o.index as int, 2);
    lemma_example_cells(cfg, tc, fresh, l, circuit, tc.l.index as int, 3);
    lemma_example_cells(cfg, tc, fresh, l, circuit, tc.r.index as int, 3);
    lemma_example_cells(cfg, tc, fresh, l, circuit, tc.o.index as int, 3);
    assert forall|i: int| 0 <= i < 5 implies !#[trigger] copy_violated(cfg, l, public, i) by {}
    lemma_small_mod(example_output(p, x, y, c) as nat, p as nat);
}

/// With public inputs `[c, x^2 + y^2 + c]`, the example circuit synthesized
/// from any `x`, `y`, `c` passes the check.
pub proof fn lemma_example_satisfied(
    cfg: &Config,
    tc: TutorialConfig,
    fresh: Layout,
    l: Layout,
    circuit: TutorialCircuit,
    x: u64,
    y: u64,
    public: Seq<Vec<u64>>,
)
    requires
        example_config(cfg, tc),
        blank(cfg, fresh),
        circuit.x == Value::Known(x),
        circuit.y == Value::Known(y),
        circuit_placed(cfg, tc, fresh, l, circuit),
        public_value(public, tc.pi.index as int, 0) == circuit.constant as int,
        public_value(public, tc.pi.index as int, 1) == example_output(cfg.field.p(), x, y, circuit.constant),
    ensures
        satisfied(cfg, l, public),
{
    lemma_example_check(cfg, tc, fresh, l, circuit, x, y, public);
    let p = cfg.field.p();
    lemma_mod_pos_bound(sq(p, x) as int + sq(p, y) as int, p);
    lemma_mod_pos_bound(fadd(p, sq(p, x) as int, sq(p, y) as int) + circuit.constant as int, p);
    lemma_small_mod(example_output(p, x, y, circuit.constant) as nat, p as nat);
    assert forall|i: int| 0 <= i < l.copies@.len() implies !#[trigger] copy_violated(cfg, l, public, i) by {
    }
}

/// A public input at a bound row that differs from the computed value fails
/// that binding alone: no gate and no other copy constraint is reported.
pub proof fn lemma_public_mismatch_localized(
    cfg: &Config,
    tc: TutorialConfig,
    fresh: Layout,
    l: Layout,
    circuit: TutorialCircuit,
    x: u64,
    y: u64,
    public: Seq<Vec<u64>>,
)
    requires
        example_config(cfg, tc),
        blank(cfg, fresh),
        circuit.x == Value::Known(x),
        circuit.y == Value::Known(y),
        circuit_placed(cfg, tc, fresh, l, circuit),
        public_value(public, tc.pi.index as int, 0) == circuit.constant as int,
        public_value(public, tc.pi.index as int, 1) % cfg.field.p() != example_output(
            cfg.field.p(),
            x,
            y,
            circuit.constant,
        ),
    ensures
        !satisfied(cfg, l, public),
        forall|g: int, j: int, row: int|
            in_grid(cfg, l, g, j, row) ==> !#[trigger] gate_violated(cfg, l, public, g, j, row),
        forall|i: int| 0 <= i < l.copies@.len() ==> (#[trigger] copy_violated(cfg, l, public, i) <==> i == 6),
{
    lemma_example_check(cfg, tc, fresh, l, circuit, x, y, public);
    assert forall|i: int| 0 <= i < l.copies@.len() implies (#[trigger] copy_violated(cfg, l, public, i) <==> i == 6) by {
    }
}

/// Changing the value of an advice cell to another field element breaks any
/// satisfied copy constraint that relates it to a different cell.
pub proof fn lemma_mutation_breaks_copy(
    cfg: &Config,
    l: Layout,
    m: Layout,
    public: Seq<Vec<u64>>,
    i: int,
    a: Cell,
    v: u64,
)
    requires
        cfg.wf(),
        l.wf_for(cfg),
        m.n == l.n,
        m.fixed@ == l.fixed@,
        m.copies@ == l.copies@,
        a.column.kind == ColumnKind::Advice,
        a.column.index < cfg.advice_eq@.len(),
        a.row < l.n,
        m.advice@ == l.advice@.update(a.column.index * l.n + a.row, v),
        0 <= i < l.copies@.len(),
        l.copies@[i].0 == a || l.copies@[i].1 == a,
        l.copies@[i].0 != l.copies@[i].1,
        !copy_violated(cfg, l, public, i),
        v as int % cfg.field.p() != l.advice_at(a.column.index as int, a.row as int) as int % cfg.field.p(),
    ensures
        copy_violated(cfg, m, public, i),
        !satisfied(cfg, m, public),
{
    let n = l.n as int;
    let other = if l.copies@[i].0 == a { l.copies@[i].1 } else { l.copies@[i].0 };
    assert(copyable(cfg, n, l.copies@[i].0) && copyable(cfg, n, l.copies@[i].1));
    let ia = a.column.index * n + a.row;
    lemma_cell_index(a.column.index as int, a.row as int, n, cfg.advice_eq@.len() as int);
    assert(m.cell_value(public, a.column, a.row as int) == v);
    if other.column.kind == ColumnKind::Advice {
        lemma_index_inj(other.column.index as int, other.row as int, a.column.index as int, a.row as int, n);
        lemma_cell_index(other.column.index as int, other.row as int, n, cfg.advice_eq@.len() as int);
    }
    assert(m.cell_value(public, other.column, other.row as int) == l.cell_value(public, other.column, other.row as int));
    assert(copy_violated(cfg, m, public, i));
}

/// In the example circuit synthesized from known `x`, `y` and checked
/// against its own public inputs, changing any advice cell of its four rows
/// to another field element makes the check fail.
pub proof fn lemma_example_mutation_detected(
    cfg: &Config,
    tc: TutorialConfig,
    fresh: Layout,
    l: Layout,
    m: Layout,
    circuit: TutorialCircuit,
    x: u64,
    y: u64,
    public: Seq<Vec<u64>>,
    a: Cell,
    v: u64,
)
    requires
        example_config(cfg, tc),
        blank(cfg, fresh),
        circuit.x == Value::Known(x),
        circuit.y == Value::Known(y),
        circuit_placed(cfg, tc, fresh, l, circuit),
        public_value(public, tc.pi.index as int, 0) == circuit.constant as int,
        public_value(public, tc.pi.index as int, 1) == example_output(cfg.field.p(), x, y, circuit.constant),
        a.column == tc.l || a.column == tc.r || a.column == tc.o,
        a.row < 4,
        m.n == l.n,
        m.fixed@ == l.fixed@,
        m.copies@ == l.copies@,
        m.advice@ == l.advice@.update(a.column.index * l.n + a.row, v),
        v as int % cfg.field.p() != l.advice_at(a.column.index as int, a.row as int) as int % cfg.field.p(),
    ensures
        !satisfied(cfg, m, public),
{
    lemma_example_satisfied(cfg, tc, fresh, l, circuit, x, y, public);
    let cp = circuit_copies(tc, 0);
    assert(l.copies@ =~= cp);
    let i: int = if a.row == 0 {
        if a.column == tc.o { 2 } else { 0 }
    } else if a.row == 1 {
        if a.column == tc.o { 3 } else { 1 }
    } else if a.row == 2 {
        if a.column == tc.l { 2 } else if a.column == tc.r { 3 } else { 4 }
    } else {
        if a.column == tc.l { 4 } else if a.column == tc.r { 5 } else { 6 }
    };
    assert(l.copies@[i].0 == a || l.copies@[i].1 == a);
    assert(!copy_violated(cfg, l, public, i));
    lemma_mutation_breaks_copy(cfg, l, m, public, i, a, v);
}

/// On row `row < 4` of the example grid, the chip's polynomial is the row's
/// operation on `l` and `r` minus `o`, whatever `o` holds.
proof fn lemma_example_row_polynomial(
    cfg: &Config,
    tc: TutorialConfig,
    fresh: Layout,
    l: Layout,
    circuit: TutorialCircuit,
    x: u64,
    y: u64,
    public: Seq<Vec<u64>>,
    row: int,
)
    requires
        example_config(cfg, tc),
        blank(cfg, fresh),
        circuit.x == Value::Known(x),
        circuit.y == Value::Known(y),
        circuit_placed(cfg, tc, fresh, l, circuit),
        0 <= row < 4,
    ensures
        ({
            let p = cfg.field.p();
            let o = l.advice_at(tc.o.index as int, row) as int;
            let expected = if row == 0 {
                sq(p, x) as int
            } else if row == 1 {
                sq(p, y) as int
            } else {
                fadd(p, l.advice_at(tc.l.index as int, row) as int, l.advice_at(tc.r.index as int, row) as int)
            };
            &&& plonk_value(
                p,
                l.advice_at(tc.l.index as int, row) as int,
                l.advice_at(tc.r.index as int, row) as int,
                o,
                l.fixed_at(tc.sl.index as int, row) as int,
                l.fixed_at(tc.sr.index as int, row) as int,
                l.fixed_at(tc.sm.index as int, row) as int,
                l.fixed_at(tc.so.index as int, row) as int,
                l.fixed_at(tc.sc.index as int, row) as int,
            ) == fadd(p, expected, fneg(p, o % p))
            &&& 0 <= expected < p
            &&& o == expected
        }),
{
    let p = cfg.field.p();
    let c = circuit.constant;
    lemma_example_cells(cfg, tc, fresh, l, circuit, tc.l.index as int, row);
    lemma_example_cells(cfg, tc, fresh, l, circuit, tc.r.index as int, row);
    lemma_example_cells(cfg, tc, fresh, l, circuit, tc.o.index as int, row);
    lemma_example_cells(cfg, tc, fresh, l, circuit, tc.sl.index as int, row);
    lemma_example_cells(cfg, tc, fresh, l, circuit, tc.sr.index as int, row);
    lemma_example_cells(cfg, tc, fresh, l, circuit, tc.sm.index as int, row);
    lemma_example_cells(cfg, tc, fresh, l, circuit, tc.so.index as int, row);
    lemma_example_cells(cfg, tc, fresh, l, circuit, tc.sc.index as int, row);
    let o = l.advice_at(tc.o.index as int, row) as int;
    if row == 0 {
        lemma_plonk_mult_row(p, x, o);
    } else if row == 1 {
        lemma_plonk_mult_row(p, y, o);
    } else if row == 2 {
        lemma_plonk_add_row(p, sq(p, x) as int, sq(p, y) as int, o);
        lemma_mod_pos_bound(sq(p, x) as int + sq(p, y) as int, p);
    } else {
        let s = fadd(p, sq(p, x) as int, sq(p, y) as int);
        lemma_mod_pos_bound(sq(p, x) as int + sq(p, y) as int, p);
        lemma_mod_pos_bound(s + c as int, p);
        lemma_plonk_add_row(p, s, c as int, o);
    }
}

/// In the example circuit synthesized from known `x`, `y`, changing the
/// output cell `o` of any of its four rows to another field element makes
/// its polynomial fail at that row.
pub proof fn lemma_example_output_mutation_breaks_gate(
    cfg: &Config,
    tc: TutorialConfig,
    fresh: Layout,
    l: Layout,
    m: Layout,
    circuit: TutorialCircuit,
    x: u64,
    y: u64,
    public: Seq<Vec<u64>>,
    row: int,
    v: u64,
)
    requires
        example_config(cfg, tc),
        blank(cfg, fresh),
        circuit.x == Value::Known(x),
        circuit.y == Value::Known(y),
        circuit_placed(cfg, tc, fresh, l, circuit),
        0 <= row < 4,
        m.n == l.n,
        m.fixed@ == l.fixed@,
        m.copies@ == l.copies@,
        m.advice@ == l.advice@.update(tc.o.index * l.n + row, v),
        v as int % cfg.field.p() != l.advice_at(tc.o.index as int, row) as int % cfg.field.p(),
    ensures
        in_grid(cfg, m, 0, 0, row),
        gate_violated(cfg, m, public, 0, 0, row),
        !satisfied(cfg, m, public),
{
    let p = cfg.field.p();
    let n = l.n as int;
    lemma_example_row_polynomial(cfg, tc, fresh, l, circuit, x, y, public, row);
    let expected = l.advice_at(tc.o.index as int, row) as int;
    lemma_small_mod(expected as nat, p as nat);
    lemma_cell_index(tc.o.index as int, row, n, cfg.advice_eq@.len() as int);
    lemma_cell_index(tc.l.index as int, row, n, cfg.advice_eq@.len() as int);
    lemma_cell_index(tc.r.index as int, row, n, cfg.advice_eq@.len() as int);
    lemma_index_inj(tc.l.index as int, row, tc.o.index as int, row, n);
    lemma_index_inj(tc.r.index as int, row, tc.o.index as int, row, n);
    assert(m.advice_at(tc.o.index as int, row) == v);
    assert(m.advice_at(tc.l.index as int, row) == l.advice_at(tc.l.index as int, row));
    assert(m.advice_at(tc.r.index as int, row) == l.advice_at(tc.r.index as int, row));
    lemma_eval_plonk(cfg, tc, m, public, row);
    lemma_example_cells(cfg, tc, fresh, l, circuit, tc.l.index as int, row);
    lemma_example_cells(cfg, tc, fresh, l, circuit, tc.r.index as int, row);
    lemma_example_cells(cfg, tc, fresh, l, circuit, tc.sl.index as int, row);
    lemma_example_cells(cfg, tc, fresh, l, circuit, tc.sr.index as int, row);
    lemma_example_cells(cfg, tc, fresh, l, circuit, tc.sm.index as int, row);
    lemma_example_cells(cfg, tc, fresh, l, circuit, tc.so.index as int, row);
    lemma_example_cells(cfg, tc, fresh, l, circuit, tc.sc.index as int, row);
    let e = if row == 0 {
        sq(p, x) as int
    } else if row == 1 {
        sq(p, y) as int
    } else {
        fadd(p, l.advice_at(tc.l.index as int, row) as int, l.advice_at(tc.r.index as int, row) as int)
    };
    if row < 2 {
        lemma_plonk_mult_row(p, if row == 0 { x } else { y }, v as int);
    } else {
        lemma_plonk_add_row(p, l.advice_at(tc.l.index as int, row) as int, l.advice_at(tc.r.index as int, row) as int, v as int);
    }
    lemma_add_neg_nonzero(p, e, v as int % p);
    assert(gate_violated(cfg, m, public, 0, 0, row));
}

/// Whether `e` queries no instance column.
pub open spec fn reads_no_instance(e: Expr) -> bool
    decreases e,
{
    match e {
        Expr::Constant(_) => true,
        Expr::Query(c, _) => c.kind != ColumnKind::Instance,
        Expr::Negated(a) => reads_no_instance(*a),
        Expr::Sum(a, b) => reads_no_instance(*a) && reads_no_instance(*b),
        Expr::Product(a, b) => reads_no_instance(*a) && reads_no_instance(*b),
    }
}

/// Whether the copy constraint relates the instance cell `(ic, r0)`.
pub open spec fn touches(pair: (Cell, Cell), ic: int, r0: int) -> bool {
    (pair.0.column.kind == ColumnKind::Instance && pair.0.column.index == ic && pair.0.row == r0) || (
    pair.1.column.kind == ColumnKind::Instance && pair.1.column.index == ic && pair.1.row == r0)
}

proof fn lemma_eval_ignores_public(e: Expr, l: Layout, pub1: Seq<Vec<u64>>, pub2: Seq<Vec<u64>>, p: int, row: int)
    requires
        reads_no_instance(e),
    ensures
        eval(e, l, pub1, p, row) == eval(e, l, pub2, p, row),
    decreases e,
{
    match e {
        Expr::Constant(_) => {},
        Expr::Query(_, _) => {},
        Expr::Negated(a) => lemma_eval_ignores_public(*a, l, pub1, pub2, p, row),
        Expr::Sum(a, b) => {
            lemma_eval_ignores_public(*a, l, pub1, pub2, p, row);
            lemma_eval_ignores_public(*b, l, pub1, pub2, p, row);
        },
        Expr::Product(a, b) => {
            lemma_eval_ignores_public(*a, l, pub1, pub2, p, row);
            lemma_eval_ignores_public(*b, l, pub1, pub2, p, row);
        },
    }
}

/// A grid that passes the check with public inputs `pub1` is checked again
/// with `pub2`, which differs from `pub1` at most at row `r0` of instance
/// column `ic`. When no gate reads an instance column, no gate fails, and
/// every copy constraint that fails is a binding of that instance cell.
pub proof fn lemma_public_change_is_local(
    cfg: &Config,
    l: Layout,
    pub1: Seq<Vec<u64>>,
    pub2: Seq<Vec<u64>>,
    ic: int,
    r0: int,
)
    requires
        satisfied(cfg, l, pub1),
        forall|i: int, row: int|
            !(i == ic && row == r0) ==> #[trigger] public_value(pub1, i, row) == public_value(pub2, i, row),
        forall|g: int, j: int|
            0 <= g < cfg.gates@.len() && 0 <= j < cfg.gates@[g].polys@.len() ==> reads_no_instance(
                #[trigger] cfg.gates@[g].polys@[j],
            ),
    ensures
        forall|g: int, j: int, row: int|
            in_grid(cfg, l, g, j, row) ==> !#[trigger] gate_violated(cfg, l, pub2, g, j, row),
        forall|i: int|
            0 <= i < l.copies@.len() && #[trigger] copy_violated(cfg, l, pub2, i) ==> touches(l.copies@[i], ic, r0),
{
    assert forall|g: int, j: int, row: int|
        in_grid(cfg, l, g, j, row) implies !#[trigger] gate_violated(cfg, l, pub2, g, j, row) by {
        lemma_eval_ignores_public(cfg.gates@[g].polys@[j], l, pub1, pub2, cfg.field.p(), row);
        assert(!gate_violated(cfg, l, pub1, g, j, row));
    }
    assert forall|i: int|
        0 <= i < l.copies@.len() && #[trigger] copy_violated(cfg, l, pub2, i) implies touches(l.copies@[i], ic, r0) by {
        let (a, b) = l.copies@[i];
        assert(!copy_violated(cfg, l, pub1, i));
        if !touches(l.copies@[i], ic, r0) {
            assert(public_value(pub1, a.column.index as int, a.row as int) == public_value(pub2, a.column.index as int, a.row as int));
            assert(public_value(pub1, b.column.index as int, b.row as int) == public_value(pub2, b.column.index as int, b.row as int));
        }
    }
}

} // verus!
