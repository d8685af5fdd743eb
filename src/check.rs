//! Checking a synthesized grid: every gate polynomial at every row where its
//! selector is on, and every declared copy constraint. All violations are
//! collected rather than stopping at the first.
use vstd::prelude::*;
use crate::circuit::{expr_wf, gate_wf, Cell, Column, ColumnKind, Config, Expr, Gate};
use crate::field::{fadd, fmul, fneg};
use crate::layout::{copyable, lemma_cell_index, rotated_row, wrap, Layout};

verus! {

/// One violated constraint.
#[derive(Clone, Copy, Debug, PartialEq, Eq, Structural)]
pub enum Failure {
    /// Polynomial `poly` of gate `gate` evaluates to `residual`, not zero, at `row`.
    Gate { gate: usize, poly: usize, row: usize, residual: u64 },
    /// The copy constraint at `index` (a public-input binding included)
    /// relates two cells with different values.
    Copy { index: usize, left: Cell, right: Cell },
}

/// The value of `e` at `row`, reading each query at its rotated row.
pub open spec fn eval(e: Expr, l: Layout, public: Seq<Vec<u64>>, p: int, row: int) -> int
    decreases e,
{
    match e {
        Expr::Constant(v) => v as int % p,
        Expr::Query(c, rot) => l.cell_value(public, c, wrap(row, rot as int, l.n as int)) % p,
        Expr::Negated(a) => fneg(p, eval(*a, l, public, p, row)),
        Expr::Sum(a, b) => fadd(p, eval(*a, l, public, p, row), eval(*b, l, public, p, row)),
        Expr::Product(a, b) => fmul(p, eval(*a, l, public, p, row), eval(*b, l, public, p, row)),
    }
}

/// Whether gate `g` is checked at `row`.
pub open spec fn selector_on(cfg: &Config, l: Layout, g: Gate, row: int) -> bool {
    match g.selector {
        Some(s) => l.fixed_at(s.index as int, row) as int % cfg.field.p() != 0,
        None => true,
    }
}

pub open spec fn residual(cfg: &Config, l: Layout, public: Seq<Vec<u64>>, g: int, j: int, row: int) -> int {
    eval(cfg.gates@[g].polys@[j], l, public, cfg.field.p(), row)
}

pub open spec fn gate_violated(cfg: &Config, l: Layout, public: Seq<Vec<u64>>, g: int, j: int, row: int) -> bool {
    selector_on(cfg, l, cfg.gates@[g], row) && residual(cfg, l, public, g, j, row) != 0
}

pub open spec fn gate_failure(cfg: &Config, l: Layout, public: Seq<Vec<u64>>, g: int, j: int, row: int) -> Failure {
    Failure::Gate {
        gate: g as usize,
        poly: j as usize,
        row: row as usize,
        residual: residual(cfg, l, public, g, j, row) as u64,
    }
}

pub open spec fn copy_violated(cfg: &Config, l: Layout, public: Seq<Vec<u64>>, i: int) -> bool {
    let (a, b) = l.copies@[i];
    l.cell_value(public, a.column, a.row as int) % cfg.field.p() != l.cell_value(
        public,
        b.column,
        b.row as int,
    ) % cfg.field.p()
}

pub open spec fn copy_failure(l: Layout, i: int) -> Failure {
    Failure::Copy { index: i as usize, left: l.copies@[i].0, right: l.copies@[i].1 }
}

pub open spec fn in_grid(cfg: &Config, l: Layout, g: int, j: int, row: int) -> bool {
    0 <= g < cfg.gates@.len() && 0 <= j < cfg.gates@[g].polys@.len() && 0 <= row < l.n
}

/// Every gate vanishes wherever its selector is on, and every copy
/// constraint relates equal values.
pub open spec fn satisfied(cfg: &Config, l: Layout, public: Seq<Vec<u64>>) -> bool {
    &&& forall|g: int, j: int, row: int|
        in_grid(cfg, l, g, j, row) ==> !#[trigger] gate_violated(cfg, l, public, g, j, row)
    &&& forall|i: int| 0 <= i < l.copies@.len() ==> !#[trigger] copy_violated(cfg, l, public, i)
}

/// Whether `f` reports a constraint that is in fact violated.
pub open spec fn is_failure(cfg: &Config, l: Layout, public: Seq<Vec<u64>>, f: Failure) -> bool {
    match f {
        Failure::Gate { gate, poly, row, residual: _ } => {
            &&& in_grid(cfg, l, gate as int, poly as int, row as int)
            &&& gate_violated(cfg, l, public, gate as int, poly as int, row as int)
            &&& f == gate_failure(cfg, l, public, gate as int, poly as int, row as int)
        },
        Failure::Copy { index, left: _, right: _ } => {
            &&& index < l.copies@.len()
            &&& copy_violated(cfg, l, public, index as int)
            &&& f == copy_failure(l, index as int)
        },
    }
}

pub open spec fn extends<A>(a: Seq<A>, b: Seq<A>) -> bool {
    a.len() <= b.len() && forall|i: int| 0 <= i < a.len() ==> #[trigger] b[i] == a[i]
}

proof fn lemma_extends_contains<A>(a: Seq<A>, b: Seq<A>, x: A)
    requires
        extends(a, b),
        a.contains(x),
    ensures
        b.contains(x),
{
    let i = choose|i: int| 0 <= i < a.len() && a[i] == x;
    assert(b[i] == x);
}

pub open spec fn all_failures(cfg: &Config, l: Layout, public: Seq<Vec<u64>>, s: Seq<Failure>) -> bool {
    forall|i: int| 0 <= i < s.len() ==> is_failure(cfg, l, public, #[trigger] s[i])
}

fn cell_value_exec(cfg: &Config, l: &Layout, public: &Vec<Vec<u64>>, c: Column, row: usize) -> (r: u64)
    requires
        l.wf_for(cfg),
        cfg.knows(c),
        row < l.n,
    ensures
        r as int == l.cell_value(public@, c, row as int),
{
    match c.kind {
        ColumnKind::Advice => {
            // the vector's length bounds the position in `usize`
            let len: usize = l.advice.len();
            proof {
                lemma_cell_index(c.index as int, row as int, l.n as int, cfg.advice_eq@.len() as int);
                assert(c.index * l.n + row < len);
                assert(c.index * l.n <= c.index * l.n + row);
            }
            let cn: usize = c.index * l.n;
            l.advice[cn + row]
        },
        ColumnKind::Fixed => {
            // the vector's length bounds the position in `usize`
            let len: usize = l.fixed.len();
            proof {
                lemma_cell_index(c.index as int, row as int, l.n as int, cfg.fixed_eq@.len() as int);
                assert(c.index * l.n + row < len);
                assert(c.index * l.n <= c.index * l.n + row);
            }
            let cn: usize = c.index * l.n;
            l.fixed[cn + row]
        },
        ColumnKind::Instance => {
            if c.index < public.len() && row < public[c.index].len() {
                public[c.index][row]
            } else {
                0
            }
        },
    }
}

/// Evaluates `e` at `row`.
pub fn eval_expr(e: &Expr, cfg: &Config, l: &Layout, public: &Vec<Vec<u64>>, row: usize) -> (r: u64)
    requires
        cfg.wf(),
        l.wf_for(cfg),
        expr_wf(*e, cfg.advice_eq@, cfg.fixed_eq@, cfg.instance_eq@),
        row < l.n,
    ensures
        r as int == eval(*e, *l, public@, cfg.field.p(), row as int),
        r < cfg.field.p(),
    decreases e,
{
    proof { crate::circuit::lemma_rows_bound(cfg.k as nat); }
    match e {
        Expr::Constant(v) => cfg.field.reduce(*v),
        Expr::Query(c, rot) => {
            let at = rotated_row(row, *rot, l.n);
            let v = cell_value_exec(cfg, l, public, *c, at);
            cfg.field.reduce(v)
        },
        Expr::Negated(a) => {
            let x = eval_expr(a, cfg, l, public, row);
            cfg.field.neg(x)
        },
        Expr::Sum(a, b) => {
            let x = eval_expr(a, cfg, l, public, row);
            let y = eval_expr(b, cfg, l, public, row);
            cfg.field.add(x, y)
        },
        Expr::Product(a, b) => {
            let x = eval_expr(a, cfg, l, public, row);
            let y = eval_expr(b, cfg, l, public, row);
            cfg.field.mul(x, y)
        },
    }
}

fn check_gate_at(
    cfg: &Config,
    l: &Layout,
    public: &Vec<Vec<u64>>,
    g: usize,
    row: usize,
    out: &mut Vec<Failure>,
)
    requires
        cfg.wf(),
        l.wf_for(cfg),
        g < cfg.gates@.len(),
        row < l.n,
        all_failures(cfg, *l, public@, old(out)@),
    ensures
        all_failures(cfg, *l, public@, final(out)@),
        extends(old(out)@, final(out)@),
        forall|j: int|
            0 <= j < cfg.gates@[g as int].polys@.len() && #[trigger] gate_violated(
                cfg,
                *l,
                public@,
                g as int,
                j,
                row as int,
            ) ==> final(out)@.contains(gate_failure(cfg, *l, public@, g as int, j, row as int)),
{
    let gate = &cfg.gates[g];
    assert(gate_wf(*gate, cfg.advice_eq@, cfg.fixed_eq@, cfg.instance_eq@));
    let on: bool = match gate.selector {
        Some(s) => {
            let v = cell_value_exec(cfg, l, public, s, row);
            cfg.field.reduce(v) != 0
        },
        None => true,
    };
    let ghost start = out@;
    let mut j: usize = 0;
    while j < gate.polys.len()
        invariant
            cfg.wf(),
            l.wf_for(cfg),
            g < cfg.gates@.len(),
            row < l.n,
            *gate == cfg.gates@[g as int],
            gate_wf(*gate, cfg.advice_eq@, cfg.fixed_eq@, cfg.instance_eq@),
            on == selector_on(cfg, *l, *gate, row as int),
            j <= gate.polys@.len(),
            all_failures(cfg, *l, public@, out@),
            extends(start, out@),
            forall|jj: int|
                0 <= jj < j && #[trigger] gate_violated(cfg, *l, public@, g as int, jj, row as int)
                    ==> out@.contains(gate_failure(cfg, *l, public@, g as int, jj, row as int)),
        decreases gate.polys@.len() - j,
    {
        if on {
            let v = eval_expr(&gate.polys[j], cfg, l, public, row);
            if v != 0 {
                let ghost before = out@;
                let f = Failure::Gate { gate: g, poly: j, row, residual: v };
                out.push(f);
                proof {
                    assert(out@[before.len() as int] == f);
                    assert forall|jj: int|
                        0 <= jj < j + 1 && #[trigger] gate_violated(cfg, *l, public@, g as int, jj, row as int)
                            implies out@.contains(gate_failure(cfg, *l, public@, g as int, jj, row as int)) by {
                        if jj < j {
                            lemma_extends_contains(before, out@, gate_failure(cfg, *l, public@, g as int, jj, row as int));
                        }
                    }
                }
            }
        }
        j = j + 1;
    }
}

fn check_gate(cfg: &Config, l: &Layout, public: &Vec<Vec<u64>>, g: usize, out: &mut Vec<Failure>)
    requires
        cfg.wf(),
        l.wf_for(cfg),
        g < cfg.gates@.len(),
        all_failures(cfg, *l, public@, old(out)@),
    ensures
        all_failures(cfg, *l, public@, final(out)@),
        extends(old(out)@, final(out)@),
        forall|j: int, row: int|
            in_grid(cfg, *l, g as int, j, row) && #[trigger] gate_violated(cfg, *l, public@, g as int, j, row)
                ==> final(out)@.contains(gate_failure(cfg, *l, public@, g as int, j, row)),
{
    let ghost start = out@;
    let mut row: usize = 0;
    while row < l.n
        invariant
            cfg.wf(),
            l.wf_for(cfg),
            g < cfg.gates@.len(),
            row <= l.n,
            all_failures(cfg, *l, public@, out@),
            extends(start, out@),
            forall|j: int, r: int|
                in_grid(cfg, *l, g as int, j, r) && r < row && #[trigger] gate_violated(cfg, *l, public@, g as int, j, r)
                    ==> out@.contains(gate_failure(cfg, *l, public@, g as int, j, r)),
        decreases l.n - row,
    {
        let ghost before = out@;
        check_gate_at(cfg, l, public, g, row, out);
        proof {
            assert forall|j: int, r: int|
                in_grid(cfg, *l, g as int, j, r) && r < row + 1 && #[trigger] gate_violated(cfg, *l, public@, g as int, j, r)
                    implies out@.contains(gate_failure(cfg, *l, public@, g as int, j, r)) by {
                if r < row {
                    lemma_extends_contains(before, out@, gate_failure(cfg, *l, public@, g as int, j, r));
                }
            }
        }
        row = row + 1;
    }
}

/// Checks the grid against every gate and copy constraint, with `public[i]`
/// the public inputs of instance column `i`. The result lists exactly the
/// violated constraints: gates first, by gate, row and polynomial, then copy
/// constraints in declaration order.
pub fn verify(cfg: &Config, l: &Layout, public: &Vec<Vec<u64>>) -> (r: Vec<Failure>)
    requires
        cfg.wf(),
        l.wf_for(cfg),
    ensures
        all_failures(cfg, *l, public@, r@),
        forall|g: int, j: int, row: int|
            in_grid(cfg, *l, g, j, row) && #[trigger] gate_violated(cfg, *l, public@, g, j, row)
                ==> r@.contains(gate_failure(cfg, *l, public@, g, j, row)),
        forall|i: int|
            0 <= i < l.copies@.len() && #[trigger] copy_violated(cfg, *l, public@, i)
                ==> r@.contains(copy_failure(*l, i)),
        r@.len() == 0 <==> satisfied(cfg, *l, public@),
{
    let mut out: Vec<Failure> = Vec::new();
    let mut g: usize = 0;
    while g < cfg.gates.len()
        invariant
            cfg.wf(),
            l.wf_for(cfg),
            g <= cfg.gates@.len(),
            all_failures(cfg, *l, public@, out@),
            forall|gg: int, j: int, row: int|
                in_grid(cfg, *l, gg, j, row) && gg < g && #[trigger] gate_violated(cfg, *l, public@, gg, j, row)
                    ==> out@.contains(gate_failure(cfg, *l, public@, gg, j, row)),
        decreases cfg.gates@.len() - g,
    {
        let ghost before = out@;
        check_gate(cfg, l, public, g, &mut out);
        proof {
            assert forall|gg: int, j: int, row: int|
                in_grid(cfg, *l, gg, j, row) && gg < g + 1 && #[trigger] gate_violated(cfg, *l, public@, gg, j, row)
                    implies out@.contains(gate_failure(cfg, *l, public@, gg, j, row)) by {
                if gg < g {
                    lemma_extends_contains(before, out@, gate_failure(cfg, *l, public@, gg, j, row));
                }
            }
        }
        g = g + 1;
    }
    let mut i: usize = 0;
    while i < l.copies.len()
        invariant
            cfg.wf(),
            l.wf_for(cfg),
            i <= l.copies@.len(),
            all_failures(cfg, *l, public@, out@),
            forall|gg: int, j: int, row: int|
                in_grid(cfg, *l, gg, j, row) && #[trigger] gate_violated(cfg, *l, public@, gg, j, row)
                    ==> out@.contains(gate_failure(cfg, *l, public@, gg, j, row)),
            forall|ii: int|
                0 <= ii < i && #[trigger] copy_violated(cfg, *l, public@, ii)
                    ==> out@.contains(copy_failure(*l, ii)),
        decreases l.copies@.len() - i,
    {
        let (a, b) = l.copies[i];
        assert(copyable(cfg, l.n as int, a) && copyable(cfg, l.n as int, b));
        let va = cell_value_exec(cfg, l, public, a.column, a.row);
        let vb = cell_value_exec(cfg, l, public, b.column, b.row);
        if !cfg.field.eq(va, vb) {
            let ghost before = out@;
            let f = Failure::Copy { index: i, left: a, right: b };
            out.push(f);
            proof {
                assert(out@[before.len() as int] == f);
                assert forall|gg: int, j: int, row: int|
                    in_grid(cfg, *l, gg, j, row) && #[trigger] gate_violated(cfg, *l, public@, gg, j, row)
                        implies out@.contains(gate_failure(cfg, *l, public@, gg, j, row)) by {
                    lemma_extends_contains(before, out@, gate_failure(cfg, *l, public@, gg, j, row));
                }
                assert forall|ii: int|
                    0 <= ii < i + 1 && #[trigger] copy_violated(cfg, *l, public@, ii)
                        implies out@.contains(copy_failure(*l, ii)) by {
                    if ii < i {
                        lemma_extends_contains(before, out@, copy_failure(*l, ii));
                    }
                }
            }
        }
        i = i + 1;
    }
    proof {
        if out@.len() == 0 {
            assert forall|g: int, j: int, row: int|
                in_grid(cfg, *l, g, j, row) implies !#[trigger] gate_violated(cfg, *l, public@, g, j, row) by {
                if gate_violated(cfg, *l, public@, g, j, row) {
                    assert(out@.contains(gate_failure(cfg, *l, public@, g, j, row)));
                }
            }
            assert forall|ii: int| 0 <= ii < l.copies@.len() implies !#[trigger] copy_violated(cfg, *l, public@, ii) by {
                if copy_violated(cfg, *l, public@, ii) {
                    assert(out@.contains(copy_failure(*l, ii)));
                }
            }
        } else {
            let f = out@[0];
            assert(is_failure(cfg, *l, public@, f));
        }
    }
    out
}

} // verus!
