//! The standard PLONK chip (`l*sl + r*sr + l*r*sm - o*so + sc = 0` on every
//! row) and the example circuit built on it: `x^2 + y^2 + c`, with `c` and
//! the result exposed as public inputs.
use vstd::prelude::*;
use crate::circuit::{expr_wf, name_fresh, Cell, Column, ColumnKind, Config, ConfigError, ConstraintSystem, Expr};
use crate::field::{fadd, fmul};
use crate::layout::{copyable, is_overflow, lemma_cell_index, lemma_index_inj, Layout, SynthesisError, Value};

verus! {

/// The columns of the chip.
#[derive(Clone, Copy, Debug, PartialEq, Eq, Structural)]
pub struct TutorialConfig {
    pub l: Column,
    pub r: Column,
    pub o: Column,
    pub sl: Column,
    pub sr: Column,
    pub so: Column,
    pub sm: Column,
    pub sc: Column,
    pub pi: Column,
}

pub open spec fn advice_col(c: Column, cfg: &Config) -> bool {
    c.kind == ColumnKind::Advice && c.index < cfg.advice_eq@.len() && cfg.advice_eq@[c.index as int]
}

pub open spec fn fixed_col(c: Column, cfg: &Config) -> bool {
    c.kind == ColumnKind::Fixed && c.index < cfg.fixed_eq@.len()
}

impl TutorialConfig {
    /// The columns exist in `cfg` with their kinds, are pairwise distinct, and
    /// the advice and instance columns carry the equality flag.
    pub open spec fn fits(&self, cfg: &Config) -> bool {
        &&& advice_col(self.l, cfg)
        &&& advice_col(self.r, cfg)
        &&& advice_col(self.o, cfg)
        &&& self.l.index != self.r.index
        &&& self.l.index != self.o.index
        &&& self.r.index != self.o.index
        &&& fixed_col(self.sl, cfg)
        &&& fixed_col(self.sr, cfg)
        &&& fixed_col(self.so, cfg)
        &&& fixed_col(self.sm, cfg)
        &&& fixed_col(self.sc, cfg)
        &&& self.sl.index != self.sr.index
        &&& self.sl.index != self.so.index
        &&& self.sl.index != self.sm.index
        &&& self.sl.index != self.sc.index
        &&& self.sr.index != self.so.index
        &&& self.sr.index != self.sm.index
        &&& self.sr.index != self.sc.index
        &&& self.so.index != self.sm.index
        &&& self.so.index != self.sc.index
        &&& self.sm.index != self.sc.index
        &&& self.pi.kind == ColumnKind::Instance
        &&& self.pi.index < cfg.instance_eq@.len()
        &&& cfg.instance_eq@[self.pi.index as int]
    }

    /// Which fixed columns a multiplication (`mult`) or an addition row
    /// switches on.
    pub open spec fn enabled(&self, mult: bool, col: int) -> bool {
        col == self.so.index || (mult && col == self.sm.index) || (!mult && (col == self.sl.index
            || col == self.sr.index))
    }

    /// Advice column `col` of a row assigned `v`, which previously held `prev`.
    pub open spec fn row_advice(&self, v: Value<(u64, u64, u64)>, col: int, prev: u64) -> u64 {
        match v {
            Value::Known(t) => if col == self.l.index {
                t.0
            } else if col == self.r.index {
                t.1
            } else if col == self.o.index {
                t.2
            } else {
                prev
            },
            Value::Unknown => prev,
        }
    }
}

/// `after` is `before` with the chip configured as `tc`: three fresh advice
/// columns `l`, `r`, `o` and one fresh instance column, all with the equality
/// flag; five fresh fixed columns `sl`, `sr`, `sm`, `so`, `sc` without it;
/// and one more gate, named plonk, with no selector and the chip's
/// polynomial.
pub open spec fn chip_configured(before: ConstraintSystem, after: ConstraintSystem, tc: TutorialConfig) -> bool {
    let na = before.advice_eq@.len();
    let nf = before.fixed_eq@.len();
    &&& after.wf()
    &&& after.field == before.field
    &&& after.k == before.k
    &&& after.advice_eq@ == before.advice_eq@ + seq![true, true, true]
    &&& after.fixed_eq@ == before.fixed_eq@ + seq![false, false, false, false, false]
    &&& after.instance_eq@ == before.instance_eq@ + seq![true]
    &&& tc.l.kind == ColumnKind::Advice && tc.l.index == na
    &&& tc.r.kind == ColumnKind::Advice && tc.r.index == na + 1
    &&& tc.o.kind == ColumnKind::Advice && tc.o.index == na + 2
    &&& tc.sl.kind == ColumnKind::Fixed && tc.sl.index == nf
    &&& tc.sr.kind == ColumnKind::Fixed && tc.sr.index == nf + 1
    &&& tc.sm.kind == ColumnKind::Fixed && tc.sm.index == nf + 2
    &&& tc.so.kind == ColumnKind::Fixed && tc.so.index == nf + 3
    &&& tc.sc.kind == ColumnKind::Fixed && tc.sc.index == nf + 4
    &&& tc.pi.kind == ColumnKind::Instance && tc.pi.index == before.instance_eq@.len()
    &&& after.gates@.len() == before.gates@.len() + 1
    &&& forall|g: int| 0 <= g < before.gates@.len() ==> after.gates@[g] == before.gates@[g]
    &&& after.gates@.last().name@ == "plonk"@
    &&& after.gates@.last().selector.is_none()
    &&& after.gates@.last().polys@ == seq![plonk_expr(tc)]
    &&& forall|cfg: Config|
        cfg.advice_eq@ == after.advice_eq@ && cfg.fixed_eq@ == after.fixed_eq@ && cfg.instance_eq@
            == after.instance_eq@ ==> #[trigger] tc.fits(&cfg)
}

/// `a * b` for two queries of the current row.
pub open spec fn qprod(a: Column, b: Column) -> Expr {
    Expr::Product(Box::new(Expr::Query(a, 0)), Box::new(Expr::Query(b, 0)))
}

/// The chip's polynomial `l*sl + r*sr + l*r*sm - o*so + sc`.
pub open spec fn plonk_expr(tc: TutorialConfig) -> Expr {
    Expr::Sum(
        Box::new(
            Expr::Sum(
                Box::new(
                    Expr::Sum(
                        Box::new(Expr::Sum(Box::new(qprod(tc.l, tc.sl)), Box::new(qprod(tc.r, tc.sr)))),
                        Box::new(Expr::Product(Box::new(qprod(tc.l, tc.r)), Box::new(Expr::Query(tc.sm, 0)))),
                    ),
                ),
                Box::new(Expr::Negated(Box::new(qprod(tc.o, tc.so)))),
            ),
        ),
        Box::new(Expr::Query(tc.sc, 0)),
    )
}

fn query_product(a: Column, b: Column) -> (e: Expr)
    ensures
        e == qprod(a, b),
{
    Expr::Product(Box::new(Expr::Query(a, 0)), Box::new(Expr::Query(b, 0)))
}

pub struct TutorialChip {
    pub config: TutorialConfig,
}

impl TutorialChip {
    pub fn construct(config: TutorialConfig) -> (chip: TutorialChip)
        ensures
            chip.config == config,
    {
        TutorialChip { config }
    }

    /// Allocates the chip's columns, enables equality on `l`, `r`, `o` and the
    /// instance column, and adds the chip's gate under the name plonk. Fails
    /// with `DuplicateGate`, leaving `cs` as it was, when that name is taken.
    pub fn configure(cs: &mut ConstraintSystem) -> (r: Result<TutorialConfig, ConfigError>)
        requires
            old(cs).wf(),
        ensures
            final(cs).wf(),
            r.is_ok() <==> name_fresh(old(cs).gates@, "plonk"@),
            r.is_err() ==> r == Err::<TutorialConfig, ConfigError>(ConfigError::DuplicateGate)
                && *final(cs) == *old(cs),
            r matches Ok(tc) ==> chip_configured(*old(cs), *final(cs), tc),
    {
        let name = String::from_str("plonk");
        proof { reveal_strlit("plonk"); }
        if cs.has_gate(&name) {
            return Err(ConfigError::DuplicateGate);
        }
        let ghost before = *cs;
        let l = cs.advice_column();
        let r = cs.advice_column();
        let o = cs.advice_column();
        let sl = cs.fixed_column();
        let sr = cs.fixed_column();
        let sm = cs.fixed_column();
        let so = cs.fixed_column();
        let sc = cs.fixed_column();
        let pi = cs.instance_column();
        let e1 = cs.enable_equality(l);
        assert(e1.is_ok());
        let e2 = cs.enable_equality(r);
        assert(e2.is_ok());
        let e3 = cs.enable_equality(o);
        assert(e3.is_ok());
        let e4 = cs.enable_equality(pi);
        assert(e4.is_ok());
        assert(cs.advice_eq@ =~= before.advice_eq@ + seq![true, true, true]);
        assert(cs.fixed_eq@ =~= before.fixed_eq@ + seq![false, false, false, false, false]);
        assert(cs.instance_eq@ =~= before.instance_eq@ + seq![true]);

        let tc = TutorialConfig { l, r, o, sl, sr, so, sm, sc, pi };
        let e = Expr::Sum(
            Box::new(
                Expr::Sum(
                    Box::new(
                        Expr::Sum(
                            Box::new(Expr::Sum(Box::new(query_product(l, sl)), Box::new(query_product(r, sr)))),
                            Box::new(Expr::Product(Box::new(query_product(l, r)), Box::new(Expr::Query(sm, 0)))),
                        ),
                    ),
                    Box::new(Expr::Negated(Box::new(query_product(o, so)))),
                ),
            ),
            Box::new(Expr::Query(sc, 0)),
        );
        assert(e == plonk_expr(tc));
        let mut polys: Vec<Expr> = Vec::new();
        polys.push(e);
        assert(polys@ == seq![plonk_expr(tc)]);
        proof {
            reveal_with_fuel(expr_wf, 8);
            assert(expr_wf(plonk_expr(tc), cs.advice_eq@, cs.fixed_eq@, cs.instance_eq@));
        }
        let res = cs.create_gate(name, None, polys);
        assert(res.is_ok());
        Ok(tc)
    }

    /// Places one row: the three values in `l`, `r`, `o` and the selectors of
    /// a multiplication (`mult`) or an addition set to one.
    fn place_row(
        &self,
        cfg: &Config,
        layout: &mut Layout,
        name: String,
        values: Value<(u64, u64, u64)>,
        mult: bool,
    ) -> (res: Result<(Cell, Cell, Cell), SynthesisError>)
        requires
            cfg.wf(),
            self.config.fits(cfg),
            old(layout).wf_for(cfg),
            name@ == region_name(mult),
        ensures
            row_placed(cfg, self.config, *old(layout), *final(layout), values, mult, res),
    {
        proof { crate::circuit::lemma_rows_bound(cfg.k as nat); }
        let tc = self.config;
        let ghost before = *layout;
        let region = match layout.assign_region(cfg, name, 1) {
            Ok(reg) => reg,
            Err(e) => {
                return Err(e);
            },
        };
        let ghost row = region.start as int;
        let lv = match values { Value::Known(t) => Value::Known(t.0), Value::Unknown => Value::Unknown };
        let rv = match values { Value::Known(t) => Value::Known(t.1), Value::Unknown => Value::Unknown };
        let ov = match values { Value::Known(t) => Value::Known(t.2), Value::Unknown => Value::Unknown };
        let ghost s1 = *layout;
        let a = layout.assign_advice(cfg, region, tc.l, 0, lv);
        let ghost s2 = *layout;
        let b = layout.assign_advice(cfg, region, tc.r, 0, rv);
        let ghost s3 = *layout;
        let c = layout.assign_advice(cfg, region, tc.o, 0, ov);
        let ghost s4 = *layout;
        if mult {
            layout.assign_fixed(cfg, region, tc.sm, 0, 1);
        } else {
            layout.assign_fixed(cfg, region, tc.sl, 0, 1);
            layout.assign_fixed(cfg, region, tc.sr, 0, 1);
        }
        let ghost s5 = *layout;
        layout.assign_fixed(cfg, region, tc.so, 0, 1);
        proof {
            let n = layout.n as int;
            assert(s1.advice@ == before.advice@ && s1.fixed@ == before.fixed@);
            assert forall|col: int, rr: int|
                0 <= col < cfg.advice_eq@.len() && 0 <= rr < n implies #[trigger] layout.advice_at(col, rr)
                    == (if rr == row {
                    tc.row_advice(values, col, before.advice_at(col, rr))
                } else {
                    before.advice_at(col, rr)
                }) by {
                lemma_index_inj(col, rr, tc.l.index as int, row, n);
                lemma_index_inj(col, rr, tc.r.index as int, row, n);
                lemma_index_inj(col, rr, tc.o.index as int, row, n);
                lemma_cell_index(col, rr, n, cfg.advice_eq@.len() as int);
                lemma_cell_index(tc.l.index as int, row, n, cfg.advice_eq@.len() as int);
                lemma_cell_index(tc.r.index as int, row, n, cfg.advice_eq@.len() as int);
                lemma_cell_index(tc.o.index as int, row, n, cfg.advice_eq@.len() as int);
                let idx = col * n + rr;
                assert(layout.advice_at(col, rr) == s4.advice@[idx]);
                assert(s1.advice_at(col, rr) == before.advice_at(col, rr));
                match values {
                    Value::Known(t) => {
                        assert(s2.advice@[idx] == if col == tc.l.index && rr == row { t.0 } else { s1.advice@[idx] });
                        assert(s3.advice@[idx] == if col == tc.r.index && rr == row { t.1 } else { s2.advice@[idx] });
                        assert(s4.advice@[idx] == if col == tc.o.index && rr == row { t.2 } else { s3.advice@[idx] });
                    },
                    Value::Unknown => {},
                }
            }
            assert forall|col: int, rr: int|
                0 <= col < cfg.fixed_eq@.len() && 0 <= rr < n implies #[trigger] layout.fixed_at(col, rr)
                    == (if rr == row && tc.enabled(mult, col) {
                    1u64
                } else {
                    before.fixed_at(col, rr)
                }) by {
                lemma_index_inj(col, rr, tc.sl.index as int, row, n);
                lemma_index_inj(col, rr, tc.sr.index as int, row, n);
                lemma_index_inj(col, rr, tc.sm.index as int, row, n);
                lemma_index_inj(col, rr, tc.so.index as int, row, n);
                lemma_cell_index(col, rr, n, cfg.fixed_eq@.len() as int);
                lemma_cell_index(tc.sl.index as int, row, n, cfg.fixed_eq@.len() as int);
                lemma_cell_index(tc.sr.index as int, row, n, cfg.fixed_eq@.len() as int);
                lemma_cell_index(tc.sm.index as int, row, n, cfg.fixed_eq@.len() as int);
                lemma_cell_index(tc.so.index as int, row, n, cfg.fixed_eq@.len() as int);
                let idx = col * n + rr;
                assert(s4.fixed@ == before.fixed@);
                if mult {
                    assert(s5.fixed@[idx] == if col == tc.sm.index && rr == row { 1 } else { s4.fixed@[idx] });
                } else {
                    assert(s5.fixed@[idx] == if (col == tc.sl.index || col == tc.sr.index) && rr == row { 1 } else { s4.fixed@[idx] });
                }
            }
        }
        Ok((a, b, c))
    }

    /// Places a multiplication row: `l * r = o` with `sm` and `so` on. The
    /// tuple is computed once by the caller and its parts distributed.
    pub fn raw_multiply(&self, cfg: &Config, layout: &mut Layout, values: Value<(u64, u64, u64)>) -> (res:
        Result<(Cell, Cell, Cell), SynthesisError>)
        requires
            cfg.wf(),
            self.config.fits(cfg),
            old(layout).wf_for(cfg),
        ensures
            row_placed(cfg, self.config, *old(layout), *final(layout), values, true, res),
    {
        let name = String::from_str("multiply");
        proof { reveal_strlit("multiply"); }
        self.place_row(cfg, layout, name, values, true)
    }

    /// Places an addition row: `l + r = o` with `sl`, `sr` and `so` on.
    pub fn raw_add(&self, cfg: &Config, layout: &mut Layout, values: Value<(u64, u64, u64)>) -> (res:
        Result<(Cell, Cell, Cell), SynthesisError>)
        requires
            cfg.wf(),
            self.config.fits(cfg),
            old(layout).wf_for(cfg),
        ensures
            row_placed(cfg, self.config, *old(layout), *final(layout), values, false, res),
    {
        let name = String::from_str("add");
        proof { reveal_strlit("add"); }
        self.place_row(cfg, layout, name, values, false)
    }

    /// Declares that two cells hold equal values.
    pub fn copy(&self, cfg: &Config, layout: &mut Layout, a: Cell, b: Cell) -> (res: Result<(), SynthesisError>)
        requires
            old(layout).wf_for(cfg),
        ensures
            final(layout).wf_for(cfg),
            res.is_ok() <==> copyable(cfg, old(layout).n as int, a) && copyable(cfg, old(layout).n as int, b),
            !cfg.equality_enabled(a.column) ==> res == Err::<(), SynthesisError>(SynthesisError::EqualityNotEnabled(a.column)),
            cfg.equality_enabled(a.column) && !cfg.equality_enabled(b.column)
                ==> res == Err::<(), SynthesisError>(SynthesisError::EqualityNotEnabled(b.column)),
            cfg.equality_enabled(a.column) && cfg.equality_enabled(b.column) && a.row >= old(layout).n
                ==> res == Err::<(), SynthesisError>(SynthesisError::CellOutOfGrid(a)),
            cfg.equality_enabled(a.column) && cfg.equality_enabled(b.column) && a.row < old(layout).n
                && b.row >= old(layout).n ==> res == Err::<(), SynthesisError>(SynthesisError::CellOutOfGrid(b)),
            res.is_err() ==> *final(layout) == *old(layout),
            res.is_ok() ==> same_grid(*old(layout), *final(layout)) && final(layout).copies@ == old(layout).copies@.push((a, b)),
    {
        layout.constrain_equal(cfg, a, b)
    }

    /// Binds `cell` to row `row` of the chip's instance column.
    pub fn expose_public(&self, cfg: &Config, layout: &mut Layout, cell: Cell, row: usize) -> (res: Result<(), SynthesisError>)
        requires
            old(layout).wf_for(cfg),
            self.config.fits(cfg),
        ensures
            final(layout).wf_for(cfg),
            res.is_ok() <==> copyable(cfg, old(layout).n as int, cell) && row < old(layout).n,
            !cfg.equality_enabled(cell.column) ==> res == Err::<(), SynthesisError>(SynthesisError::EqualityNotEnabled(cell.column)),
            cfg.equality_enabled(cell.column) && cell.row >= old(layout).n
                ==> res == Err::<(), SynthesisError>(SynthesisError::CellOutOfGrid(cell)),
            cfg.equality_enabled(cell.column) && cell.row < old(layout).n && row >= old(layout).n
                ==> res == Err::<(), SynthesisError>(SynthesisError::CellOutOfGrid(Cell { column: self.config.pi, row })),
            res.is_err() ==> *final(layout) == *old(layout),
            res.is_ok() ==> same_grid(*old(layout), *final(layout)) && final(layout).copies@ == old(layout).copies@.push(
                (cell, Cell { column: self.config.pi, row }),
            ),
    {
        layout.constrain_instance(cfg, cell, self.config.pi, row)
    }
}

/// The example circuit: `x^2 + y^2 + constant`, with `constant` exposed at
/// instance row 0 and the result at instance row 1.
#[derive(Clone, Copy, Debug, PartialEq, Eq, Structural)]
pub struct TutorialCircuit {
    pub x: Value<u64>,
    pub y: Value<u64>,
    pub constant: u64,
}

pub open spec fn sq(p: int, a: u64) -> u64 {
    fmul(p, a as int, a as int) as u64
}

pub open spec fn square_row(p: int, x: Value<u64>) -> Value<(u64, u64, u64)> {
    match x {
        Value::Known(a) => Value::Known((a, a, sq(p, a))),
        Value::Unknown => Value::Unknown,
    }
}

pub open spec fn sum_row(p: int, x: Value<u64>, y: Value<u64>) -> Value<(u64, u64, u64)> {
    match (x, y) {
        (Value::Known(a), Value::Known(b)) => Value::Known(
            (sq(p, a), sq(p, b), fadd(p, sq(p, a) as int, sq(p, b) as int) as u64),
        ),
        _ => Value::Unknown,
    }
}

pub open spec fn out_row(p: int, x: Value<u64>, y: Value<u64>, c: u64) -> Value<(u64, u64, u64)> {
    match (x, y) {
        (Value::Known(a), Value::Known(b)) => {
            let s = fadd(p, sq(p, a) as int, sq(p, b) as int);
            Value::Known((s as u64, c, fadd(p, s, c as int) as u64))
        },
        _ => Value::Unknown,
    }
}

/// The four rows of the circuit: `x*x`, `y*y`, their sum, and the sum plus
/// the constant.
pub open spec fn witness_rows(p: int, x: Value<u64>, y: Value<u64>, c: u64) -> Seq<Value<(u64, u64, u64)>> {
    seq![square_row(p, x), square_row(p, y), sum_row(p, x, y), out_row(p, x, y, c)]
}

pub open spec fn at(c: Column, row: int) -> Cell {
    Cell { column: c, row: row as usize }
}

/// The circuit's copy constraints and public-input bindings, for rows placed
/// from row `b`.
pub open spec fn circuit_copies(tc: TutorialConfig, b: int) -> Seq<(Cell, Cell)> {
    seq![
        (at(tc.l, b), at(tc.r, b)),
        (at(tc.l, b + 1), at(tc.r, b + 1)),
        (at(tc.l, b + 2), at(tc.o, b)),
        (at(tc.r, b + 2), at(tc.o, b + 1)),
        (at(tc.l, b + 3), at(tc.o, b + 2)),
        (at(tc.r, b + 3), at(tc.pi, 0)),
        (at(tc.o, b + 3), at(tc.pi, 1)),
    ]
}

/// `after` is `before` with the circuit's four rows placed from
/// `before.next_row` and its constraints appended.
pub open spec fn circuit_placed(
    cfg: &Config,
    tc: TutorialConfig,
    before: Layout,
    after: Layout,
    circuit: TutorialCircuit,
) -> bool {
    let b = before.next_row as int;
    let w = witness_rows(cfg.field.p(), circuit.x, circuit.y, circuit.constant);
    &&& after.wf_for(cfg)
    &&& after.n == before.n
    &&& after.next_row == b + 4
    &&& after.copies@ == before.copies@ + circuit_copies(tc, b)
    &&& forall|col: int, rr: int|
        0 <= col < cfg.advice_eq@.len() && 0 <= rr < before.n ==> #[trigger] after.advice_at(col, rr) == (
        if b <= rr < b + 4 {
            tc.row_advice(w[rr - b], col, before.advice_at(col, rr))
        } else {
            before.advice_at(col, rr)
        })
    &&& forall|col: int, rr: int|
        0 <= col < cfg.fixed_eq@.len() && 0 <= rr < before.n ==> #[trigger] after.fixed_at(col, rr) == (
        if b <= rr < b + 4 && tc.enabled(rr - b < 2, col) {
            1u64
        } else {
            before.fixed_at(col, rr)
        })
}

impl TutorialCircuit {
    /// The same circuit with both witnesses unknown and a zero constant, for
    /// shape-only synthesis.
    pub fn without_witnesses(&self) -> (c: TutorialCircuit)
        ensures
            c == (TutorialCircuit { x: Value::Unknown, y: Value::Unknown, constant: 0 }),
    {
        TutorialCircuit { x: Value::Unknown, y: Value::Unknown, constant: 0 }
    }

    /// Configures the circuit's chip, with exactly the effect of
    /// `TutorialChip::configure`.
    pub fn configure(cs: &mut ConstraintSystem) -> (r: Result<TutorialConfig, ConfigError>)
        requires
            old(cs).wf(),
        ensures
            final(cs).wf(),
            r.is_ok() <==> name_fresh(old(cs).gates@, "plonk"@),
            r.is_err() ==> r == Err::<TutorialConfig, ConfigError>(ConfigError::DuplicateGate)
                && *final(cs) == *old(cs),
            r matches Ok(tc) ==> chip_configured(*old(cs), *final(cs), tc),
    {
        TutorialChip::configure(cs)
    }

    /// Places the circuit: squares `x` and `y`, adds the squares, adds the
    /// constant, ties each input of a row to the output it copies, and binds
    /// the constant and the result to instance rows 0 and 1. Each row's
    /// values are computed once and then distributed to the columns. Fails
    /// with `GridOverflow` when fewer than four rows are left.
    pub fn synthesize(&self, cfg: &Config, tc: TutorialConfig, layout: &mut Layout) -> (res: Result<(), SynthesisError>)
        requires
            cfg.wf(),
            tc.fits(cfg),
            old(layout).wf_for(cfg),
        ensures
            res.is_ok() <==> old(layout).next_row + 4 <= old(layout).n,
            res.is_err() ==> is_overflow(
                res->Err_0,
                region_name(old(layout).n - old(layout).next_row < 2),
                old(layout).n + 1,
                old(layout).n as int,
            ),
            res.is_ok() ==> circuit_placed(cfg, tc, *old(layout), *final(layout), *self),
    {
        let ghost p = cfg.field.p();
        let ghost w = witness_rows(p, self.x, self.y, self.constant);
        let ghost s0 = *layout;
        let f = cfg.field;
        let cs = TutorialChip::construct(tc);
        let v0 = match self.x {
            Value::Known(a) => Value::Known((a, a, f.mul(a, a))),
            Value::Unknown => Value::Unknown,
        };
        let v1 = match self.y {
            Value::Known(b) => Value::Known((b, b, f.mul(b, b))),
            Value::Unknown => Value::Unknown,
        };
        let (v2, v3) = match (self.x, self.y) {
            (Value::Known(a), Value::Known(b)) => {
                let a2 = f.mul(a, a);
                let b2 = f.mul(b, b);
                let s = f.add(a2, b2);
                (Value::Known((a2, b2, s)), Value::Known((s, self.constant, f.add(s, self.constant))))
            },
            _ => (Value::Unknown, Value::Unknown),
        };
        assert(v0 == w[0] && v1 == w[1] && v2 == w[2] && v3 == w[3]);
        let (a0, b0, c0) = match cs.raw_multiply(cfg, layout, v0) {
            Ok(t) => t,
            Err(e) => {
                return Err(e);
            },
        };
        let ghost s1 = *layout;
        let (a1, b1, c1) = match cs.raw_multiply(cfg, layout, v1) {
            Ok(t) => t,
            Err(e) => {
                return Err(e);
            },
        };
        let ghost s2 = *layout;
        let (a2, b2, c2) = match cs.raw_add(cfg, layout, v2) {
            Ok(t) => t,
            Err(e) => {
                return Err(e);
            },
        };
        let ghost s3 = *layout;
        let (a3, b3, c3) = match cs.raw_add(cfg, layout, v3) {
            Ok(t) => t,
            Err(e) => {
                return Err(e);
            },
        };
        let ghost s4 = *layout;
        let r0 = cs.copy(cfg, layout, a0, b0);
        let r1 = cs.copy(cfg, layout, a1, b1);
        let r2 = cs.copy(cfg, layout, a2, c0);
        let r3 = cs.copy(cfg, layout, b2, c1);
        let r4 = cs.copy(cfg, layout, a3, c2);
        let r5 = cs.expose_public(cfg, layout, b3, 0);
        let r6 = cs.expose_public(cfg, layout, c3, 1);
        assert(r0.is_ok() && r1.is_ok() && r2.is_ok() && r3.is_ok() && r4.is_ok() && r5.is_ok() && r6.is_ok());
        proof {
            let b = s0.next_row as int;
            assert(layout.copies@ =~= s0.copies@ + circuit_copies(tc, b));
            assert forall|col: int, rr: int|
                0 <= col < cfg.advice_eq@.len() && 0 <= rr < s0.n implies #[trigger] layout.advice_at(col, rr) == (
                if b <= rr < b + 4 {
                    tc.row_advice(w[rr - b], col, s0.advice_at(col, rr))
                } else {
                    s0.advice_at(col, rr)
                }) by {
                assert(layout.advice_at(col, rr) == s4.advice_at(col, rr));
                assert(s4.advice_at(col, rr) == if rr == b + 3 { tc.row_advice(v3, col, s3.advice_at(col, rr)) } else { s3.advice_at(col, rr) });
                assert(s3.advice_at(col, rr) == if rr == b + 2 { tc.row_advice(v2, col, s2.advice_at(col, rr)) } else { s2.advice_at(col, rr) });
                assert(s2.advice_at(col, rr) == if rr == b + 1 { tc.row_advice(v1, col, s1.advice_at(col, rr)) } else { s1.advice_at(col, rr) });
                assert(s1.advice_at(col, rr) == if rr == b { tc.row_advice(v0, col, s0.advice_at(col, rr)) } else { s0.advice_at(col, rr) });
            }
            assert forall|col: int, rr: int|
                0 <= col < cfg.fixed_eq@.len() && 0 <= rr < s0.n implies #[trigger] layout.fixed_at(col, rr) == (
                if b <= rr < b + 4 && tc.enabled(rr - b < 2, col) {
                    1u64
                } else {
                    s0.fixed_at(col, rr)
                }) by {
                assert(layout.fixed_at(col, rr) == s4.fixed_at(col, rr));
                assert(s4.fixed_at(col, rr) == if rr == b + 3 && tc.enabled(false, col) { 1u64 } else { s3.fixed_at(col, rr) });
                assert(s3.fixed_at(col, rr) == if rr == b + 2 && tc.enabled(false, col) { 1u64 } else { s2.fixed_at(col, rr) });
                assert(s2.fixed_at(col, rr) == if rr == b + 1 && tc.enabled(true, col) { 1u64 } else { s1.fixed_at(col, rr) });
                assert(s1.fixed_at(col, rr) == if rr == b && tc.enabled(true, col) { 1u64 } else { s0.fixed_at(col, rr) });
            }
        }
        Ok(())
    }
}

/// The two layouts hold the same grid and regions; only constraints differ.
pub open spec fn same_grid(a: Layout, b: Layout) -> bool {
    &&& a.n == b.n
    &&& a.advice@ == b.advice@
    &&& a.fixed@ == b.fixed@
    &&& a.next_row == b.next_row
    &&& a.regions@ == b.regions@
}

/// The name of the region of a multiplication (`mult`) or an addition row.
pub open spec fn region_name(mult: bool) -> Seq<char> {
    if mult {
        "multiply"@
    } else {
        "add"@
    }
}

/// `after` is `before` with one more row placed by the chip at
/// `before.next_row`, or unchanged with a `GridOverflow` when no row is left.
pub open spec fn row_placed(
    cfg: &Config,
    tc: TutorialConfig,
    before: Layout,
    after: Layout,
    values: Value<(u64, u64, u64)>,
    mult: bool,
    res: Result<(Cell, Cell, Cell), SynthesisError>,
) -> bool {
    let row = before.next_row as int;
    &&& after.wf_for(cfg)
    &&& res.is_ok() <==> row + 1 <= before.n
    &&& res.is_err() ==> after == before && is_overflow(res->Err_0, region_name(mult), row + 1, before.n as int)
    &&& res.is_ok() ==> {
        let cells = res->Ok_0;
        &&& cells.0 == Cell { column: tc.l, row: row as usize }
        &&& cells.1 == Cell { column: tc.r, row: row as usize }
        &&& cells.2 == Cell { column: tc.o, row: row as usize }
        &&& after.n == before.n
        &&& after.next_row == row + 1
        &&& after.copies@ == before.copies@
        &&& after.advice@.len() == before.advice@.len()
        &&& after.fixed@.len() == before.fixed@.len()
        &&& forall|col: int, rr: int|
            0 <= col < cfg.advice_eq@.len() && 0 <= rr < before.n ==> #[trigger] after.advice_at(col, rr)
                == (if rr == row {
                tc.row_advice(values, col, before.advice_at(col, rr))
            } else {
                before.advice_at(col, rr)
            })
        &&& forall|col: int, rr: int|
            0 <= col < cfg.fixed_eq@.len() && 0 <= rr < before.n ==> #[trigger] after.fixed_at(col, rr)
                == (if rr == row && tc.enabled(mult, col) {
                1u64
            } else {
                before.fixed_at(col, rr)
            })
    }
}

} // verus!
