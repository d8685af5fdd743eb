//! Per-synthesis state: the assigned grid, the regions placed on it, and the
//! declared copy constraints (public-input bindings included).
use vstd::prelude::*;
use vstd::arithmetic::div_mod::{
    lemma_add_mod_noop, lemma_mod_add_multiples_vanish, lemma_small_mod, lemma_sub_mod_noop,
};
use crate::circuit::{Cell, Column, ColumnKind, Config};

verus! {

/// A witness value: known, or absent during shape-only synthesis.
#[derive(Clone, Copy, Debug, PartialEq, Eq, Structural)]
pub enum Value<T> {
    Known(T),
    Unknown,
}

/// A band of rows reserved for one region.
#[derive(Clone, Copy, Debug, PartialEq, Eq, Structural)]
pub struct Region {
    pub start: usize,
    pub height: usize,
}

#[derive(Debug)]
pub struct RegionRecord {
    pub name: String,
    pub region: Region,
}

#[derive(Clone, Debug, PartialEq, Eq)]
pub enum SynthesisError {
    /// The region does not fit: `required` rows are needed, `available` exist.
    GridOverflow { region: String, required: usize, available: usize },
    /// A copy constraint or binding names a column without the equality flag.
    EqualityNotEnabled(Column),
    /// A copy constraint or binding names a row outside the grid.
    CellOutOfGrid(Cell),
    /// A public-input binding names a column that is not an instance column.
    NotInstanceColumn(Column),
}

/// Whether `e` is a grid overflow of the region named `name`, needing
/// `required` rows where `available` exist.
pub open spec fn is_overflow(e: SynthesisError, name: Seq<char>, required: int, available: int) -> bool {
    match e {
        SynthesisError::GridOverflow { region, required: rq, available: av } => region@ == name && rq
            == required && av == available,
        _ => false,
    }
}

/// The row reached from `row` by `rot`, wrapping modulo `n`.
pub open spec fn wrap(row: int, rot: int, n: int) -> int {
    (row + rot) % n
}

/// The value supplied for row `row` of instance column `i`; rows past the
/// supplied vector read as zero.
pub open spec fn public_value(public: Seq<Vec<u64>>, i: int, row: int) -> int {
    if 0 <= i < public.len() && 0 <= row < public[i]@.len() {
        public[i]@[row] as int
    } else {
        0
    }
}

/// The assigned grid of one synthesis. Column `c` of a kind occupies
/// positions `c * n .. c * n + n` of that kind's vector; cells never assigned
/// hold zero, the additive identity.
pub struct Layout {
    pub n: usize,
    pub advice: Vec<u64>,
    pub fixed: Vec<u64>,
    pub next_row: usize,
    pub regions: Vec<RegionRecord>,
    pub copies: Vec<(Cell, Cell)>,
}

/// Whether a cell may take part in a copy constraint under `cfg`.
pub open spec fn copyable(cfg: &Config, n: int, c: Cell) -> bool {
    cfg.equality_enabled(c.column) && c.row < n
}

impl Layout {
    pub open spec fn wf_for(&self, cfg: &Config) -> bool {
        &&& self.n as nat == cfg.rows()
        &&& self.advice@.len() == cfg.advice_eq@.len() * self.n
        &&& self.fixed@.len() == cfg.fixed_eq@.len() * self.n
        &&& self.next_row <= self.n
        &&& forall|i: int|
            0 <= i < self.copies@.len() ==> copyable(cfg, self.n as int, (#[trigger] self.copies@[i]).0)
                && copyable(cfg, self.n as int, self.copies@[i].1)
    }

    /// The value held at a cell, reading instance columns from `public`.
    pub open spec fn cell_value(&self, public: Seq<Vec<u64>>, c: Column, row: int) -> int {
        match c.kind {
            ColumnKind::Advice => self.advice@[c.index * self.n + row] as int,
            ColumnKind::Fixed => self.fixed@[c.index * self.n + row] as int,
            ColumnKind::Instance => public_value(public, c.index as int, row),
        }
    }

    pub open spec fn advice_at(&self, c: int, row: int) -> u64 {
        self.advice@[c * self.n + row]
    }

    pub open spec fn fixed_at(&self, c: int, row: int) -> u64 {
        self.fixed@[c * self.n + row]
    }

    /// An empty grid for `cfg`: every cell zero, no region, no constraint.
    pub fn new(cfg: &Config) -> (l: Layout)
        requires
            cfg.wf(),
            cfg.advice_eq@.len() * cfg.rows() <= usize::MAX,
            cfg.fixed_eq@.len() * cfg.rows() <= usize::MAX,
        ensures
            l.wf_for(cfg),
            l.next_row == 0,
            l.regions@.len() == 0,
            l.copies@.len() == 0,
            forall|i: int| 0 <= i < l.advice@.len() ==> l.advice@[i] == 0,
            forall|i: int| 0 <= i < l.fixed@.len() ==> l.fixed@[i] == 0,
    {
        let n = cfg.num_rows();
        let advice = zeros(cfg.advice_eq.len() * n);
        let fixed = zeros(cfg.fixed_eq.len() * n);
        Layout { n, advice, fixed, next_row: 0, regions: Vec::new(), copies: Vec::new() }
    }

    /// Reserves the next `height` rows for a region named `name`. Regions are
    /// packed in request order from row 0.
    pub fn assign_region(&mut self, cfg: &Config, name: String, height: usize) -> (r: Result<
        Region,
        SynthesisError,
    >)
        requires
            old(self).wf_for(cfg),
        ensures
            final(self).wf_for(cfg),
            r.is_ok() <==> old(self).next_row + height <= old(self).n,
            r.is_err() ==> *final(self) == *old(self) && r == Err::<Region, SynthesisError>(
                SynthesisError::GridOverflow {
                    region: name,
                    required: if old(self).next_row + height <= usize::MAX {
                        (old(self).next_row + height) as usize
                    } else {
                        usize::MAX
                    },
                    available: old(self).n,
                },
            ),
            r matches Ok(reg) ==> {
                &&& reg == Region { start: old(self).next_row, height }
                &&& final(self).next_row == old(self).next_row + height
                &&& final(self).n == old(self).n
                &&& final(self).advice@ == old(self).advice@
                &&& final(self).fixed@ == old(self).fixed@
                &&& final(self).copies@ == old(self).copies@
                &&& final(self).regions@ == old(self).regions@.push(
                    RegionRecord { name, region: reg },
                )
            },
    {
        if height > self.n - self.next_row {
            let required: usize = if height <= usize::MAX - self.next_row {
                self.next_row + height
            } else {
                usize::MAX
            };
            return Err(SynthesisError::GridOverflow { region: name, required, available: self.n });
        }
        let reg = Region { start: self.next_row, height };
        self.next_row = self.next_row + height;
        self.regions.push(RegionRecord { name, region: reg });
        Ok(reg)
    }

    /// Assigns a value to an advice cell at `offset` within `region`. An
    /// unknown value leaves the cell as it was.
    pub fn assign_advice(
        &mut self,
        cfg: &Config,
        region: Region,
        column: Column,
        offset: usize,
        value: Value<u64>,
    ) -> (cell: Cell)
        requires
            old(self).wf_for(cfg),
            column.kind == ColumnKind::Advice,
            column.index < cfg.advice_eq@.len(),
            offset < region.height,
            region.start + region.height <= old(self).n,
        ensures
            final(self).wf_for(cfg),
            cell == (Cell { column, row: (region.start + offset) as usize }),
            final(self).advice@ == (match value {
                Value::Known(v) => old(self).advice@.update(
                    column.index * old(self).n + cell.row,
                    v,
                ),
                Value::Unknown => old(self).advice@,
            }),
            final(self).fixed@ == old(self).fixed@,
            final(self).n == old(self).n,
            final(self).next_row == old(self).next_row,
            final(self).copies@ == old(self).copies@,
            final(self).regions@ == old(self).regions@,
    {
        let row = region.start + offset;
        // the vector's length bounds the position in `usize`
        let len: usize = self.advice.len();
        proof {
            lemma_cell_index(column.index as int, row as int, self.n as int, cfg.advice_eq@.len() as int);
            assert(column.index * self.n + row < len);
            assert(column.index * self.n <= column.index * self.n + row);
        }
        let cn: usize = column.index * self.n;
        let idx: usize = cn + row;
        match value {
            Value::Known(v) => {
                self.advice.set(idx, v);
            },
            Value::Unknown => {},
        }
        Cell { column, row }
    }

    /// Assigns a value to a fixed cell at `offset` within `region`.
    pub fn assign_fixed(
        &mut self,
        cfg: &Config,
        region: Region,
        column: Column,
        offset: usize,
        value: u64,
    ) -> (cell: Cell)
        requires
            old(self).wf_for(cfg),
            column.kind == ColumnKind::Fixed,
            column.index < cfg.fixed_eq@.len(),
            offset < region.height,
            region.start + region.height <= old(self).n,
        ensures
            final(self).wf_for(cfg),
            cell == (Cell { column, row: (region.start + offset) as usize }),
            final(self).fixed@ == old(self).fixed@.update(column.index * old(self).n + cell.row, value),
            final(self).advice@ == old(self).advice@,
            final(self).n == old(self).n,
            final(self).next_row == old(self).next_row,
            final(self).copies@ == old(self).copies@,
            final(self).regions@ == old(self).regions@,
    {
        let row = region.start + offset;
        // the vector's length bounds the position in `usize`
        let len: usize = self.fixed.len();
        proof {
            lemma_cell_index(column.index as int, row as int, self.n as int, cfg.fixed_eq@.len() as int);
            assert(column.index * self.n + row < len);
            assert(column.index * self.n <= column.index * self.n + row);
        }
        let cn: usize = column.index * self.n;
        let idx: usize = cn + row;
        self.fixed.set(idx, value);
        Cell { column, row }
    }

    /// Declares that the two cells must hold equal values. Fails when a
    /// column lacks the equality flag or a row lies outside the grid.
    pub fn constrain_equal(&mut self, cfg: &Config, a: Cell, b: Cell) -> (r: Result<(), SynthesisError>)
        requires
            old(self).wf_for(cfg),
        ensures
            final(self).wf_for(cfg),
            r.is_ok() <==> copyable(cfg, old(self).n as int, a) && copyable(cfg, old(self).n as int, b),
            !cfg.equality_enabled(a.column) ==> r == Err::<(), SynthesisError>(SynthesisError::EqualityNotEnabled(a.column)),
            cfg.equality_enabled(a.column) && !cfg.equality_enabled(b.column)
                ==> r == Err::<(), SynthesisError>(SynthesisError::EqualityNotEnabled(b.column)),
            cfg.equality_enabled(a.column) && cfg.equality_enabled(b.column) && a.row >= old(self).n
                ==> r == Err::<(), SynthesisError>(SynthesisError::CellOutOfGrid(a)),
            cfg.equality_enabled(a.column) && cfg.equality_enabled(b.column) && a.row < old(self).n
                && b.row >= old(self).n ==> r == Err::<(), SynthesisError>(SynthesisError::CellOutOfGrid(b)),
            r.is_err() ==> *final(self) == *old(self),
            r.is_ok() ==> {
                &&& final(self).copies@ == old(self).copies@.push((a, b))
                &&& final(self).advice@ == old(self).advice@
                &&& final(self).fixed@ == old(self).fixed@
                &&& final(self).n == old(self).n
                &&& final(self).next_row == old(self).next_row
                &&& final(self).regions@ == old(self).regions@
            },
    {
        if !cfg.has_equality(a.column) {
            return Err(SynthesisError::EqualityNotEnabled(a.column));
        }
        if !cfg.has_equality(b.column) {
            return Err(SynthesisError::EqualityNotEnabled(b.column));
        }
        if a.row >= self.n {
            return Err(SynthesisError::CellOutOfGrid(a));
        }
        if b.row >= self.n {
            return Err(SynthesisError::CellOutOfGrid(b));
        }
        self.copies.push((a, b));
        Ok(())
    }

    /// Binds `cell` to row `row` of the instance column: a copy constraint
    /// between `cell` and the instance cell, whose value is the public input.
    pub fn constrain_instance(&mut self, cfg: &Config, cell: Cell, instance: Column, row: usize) -> (r: Result<
        (),
        SynthesisError,
    >)
        requires
            old(self).wf_for(cfg),
        ensures
            final(self).wf_for(cfg),
            instance.kind != ColumnKind::Instance ==> r == Err::<(), SynthesisError>(SynthesisError::NotInstanceColumn(instance)),
            instance.kind == ColumnKind::Instance ==> (r.is_ok() <==> (copyable(cfg, old(self).n as int, cell)
                && copyable(cfg, old(self).n as int, Cell { column: instance, row }))),
            instance.kind == ColumnKind::Instance && !cfg.equality_enabled(cell.column)
                ==> r == Err::<(), SynthesisError>(SynthesisError::EqualityNotEnabled(cell.column)),
            instance.kind == ColumnKind::Instance && cfg.equality_enabled(cell.column) && !cfg.equality_enabled(instance)
                ==> r == Err::<(), SynthesisError>(SynthesisError::EqualityNotEnabled(instance)),
            instance.kind == ColumnKind::Instance && cfg.equality_enabled(cell.column) && cfg.equality_enabled(instance)
                && cell.row >= old(self).n ==> r == Err::<(), SynthesisError>(SynthesisError::CellOutOfGrid(cell)),
            instance.kind == ColumnKind::Instance && cfg.equality_enabled(cell.column) && cfg.equality_enabled(instance)
                && cell.row < old(self).n && row >= old(self).n
                ==> r == Err::<(), SynthesisError>(SynthesisError::CellOutOfGrid(Cell { column: instance, row })),
            r.is_err() ==> *final(self) == *old(self),
            r.is_ok() ==> {
                &&& final(self).copies@ == old(self).copies@.push((cell, Cell { column: instance, row }))
                &&& final(self).advice@ == old(self).advice@
                &&& final(self).fixed@ == old(self).fixed@
                &&& final(self).n == old(self).n
                &&& final(self).next_row == old(self).next_row
                &&& final(self).regions@ == old(self).regions@
            },
    {
        match instance.kind {
            ColumnKind::Instance => self.constrain_equal(cfg, cell, Cell { column: instance, row }),
            _ => Err(SynthesisError::NotInstanceColumn(instance)),
        }
    }
}

/// Position `c * n + row` lies inside a grid of `cols` columns of `n` rows.
pub proof fn lemma_cell_index(c: int, row: int, n: int, cols: int)
    requires
        0 <= c < cols,
        0 <= row < n,
    ensures
        0 <= c * n + row < cols * n,
{
    assert(c * n + row < cols * n) by (nonlinear_arith)
        requires
            0 <= c < cols,
            0 <= row < n,
    ;
    assert(0 <= c * n) by (nonlinear_arith)
        requires
            0 <= c,
            0 <= row < n,
    ;
}

/// Distinct cells of a grid occupy distinct positions.
pub proof fn lemma_index_inj(c1: int, r1: int, c2: int, r2: int, n: int)
    requires
        0 <= c1,
        0 <= c2,
        0 <= r1 < n,
        0 <= r2 < n,
    ensures
        (c1 * n + r1 == c2 * n + r2) == (c1 == c2 && r1 == r2),
{
    if c1 < c2 {
        assert(c1 * n + r1 < c2 * n + r2) by (nonlinear_arith)
            requires
                0 <= c1 < c2,
                0 <= r1 < n,
                0 <= r2,
        ;
    } else if c2 < c1 {
        assert(c2 * n + r2 < c1 * n + r1) by (nonlinear_arith)
            requires
                0 <= c2 < c1,
                0 <= r2 < n,
                0 <= r1,
        ;
    }
}

fn zeros(len: usize) -> (v: Vec<u64>)
    ensures
        v@.len() == len,
        forall|i: int| 0 <= i < len ==> v@[i] == 0,
{
    let mut v: Vec<u64> = Vec::new();
    let mut i: usize = 0;
    while i < len
        invariant
            i <= len,
            v@.len() == i,
            forall|j: int| 0 <= j < i ==> v@[j] == 0,
        decreases len - i,
    {
        v.push(0);
        i = i + 1;
    }
    v
}

/// The row reached from `row` by the rotation `rot` in a grid of `n` rows;
/// offsets wrap around modulo `n`, so the row after the last is row 0.
pub fn rotated_row(row: usize, rot: i32, n: usize) -> (r: usize)
    requires
        row < n,
        n <= 0x100_0000,
    ensures
        r as int == wrap(row as int, rot as int, n as int),
        r < n,
{
    let nn: u64 = n as u64;
    proof { lemma_small_mod(row as nat, n as nat); }
    if rot >= 0 {
        let d: u64 = (rot as u64) % nn;
        proof { lemma_add_mod_noop(row as int, rot as int, n as int); }
        ((row as u64 + d) % nn) as usize
    } else {
        let m: u64 = (-(rot as i64)) as u64;
        let d: u64 = m % nn;
        proof {
            lemma_sub_mod_noop(row as int, m as int, n as int);
            lemma_mod_add_multiples_vanish(row as int - d as int, n as int);
        }
        ((row as u64 + nn - d) % nn) as usize
    }
}

} // verus!
