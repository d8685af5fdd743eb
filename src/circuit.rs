//! Configuration of a circuit's shape: columns, equality flags and gates.
use vstd::prelude::*;
use crate::field::PrimeField;

verus! {

/// Largest supported `k`: a grid has `2^k` rows.
pub const MAX_K: u32 = 24;

#[derive(Clone, Copy, Debug, PartialEq, Eq, Structural)]
pub enum ColumnKind {
    Advice,
    Fixed,
    Instance,
}

/// A column handle: its kind and its position among the columns of that kind.
#[derive(Clone, Copy, Debug, PartialEq, Eq, Structural)]
pub struct Column {
    pub kind: ColumnKind,
    pub index: usize,
}

/// An absolute grid coordinate.
#[derive(Clone, Copy, Debug, PartialEq, Eq, Structural)]
pub struct Cell {
    pub column: Column,
    pub row: usize,
}

/// A polynomial over column queries; a query reads a column at a row offset.
#[derive(Debug)]
pub enum Expr {
    Constant(u64),
    Query(Column, i32),
    Negated(Box<Expr>),
    Sum(Box<Expr>, Box<Expr>),
    Product(Box<Expr>, Box<Expr>),
}

/// A named set of polynomials that must vanish at every row where the
/// selector (a fixed column; none means every row) is nonzero.
#[derive(Debug)]
pub struct Gate {
    pub name: String,
    pub selector: Option<Column>,
    pub polys: Vec<Expr>,
}

#[derive(Clone, Copy, Debug, PartialEq, Eq, Structural)]
pub enum ConfigError {
    /// `k` is out of range or the modulus is below 2.
    BadParameters,
    /// A column handle that was never allocated.
    UnknownColumn,
    /// A gate selector that is not a fixed column.
    SelectorNotFixed,
    /// A gate without polynomials.
    EmptyGate,
    /// A gate whose name is already registered.
    DuplicateGate,
}

/// Number of rows of a grid with parameter `k`.
pub open spec fn rows_of(k: nat) -> nat
    decreases k,
{
    if k == 0 {
        1
    } else {
        2 * rows_of((k - 1) as nat)
    }
}

/// Column counts and equality flags, shared by the builder and the frozen
/// configuration.
pub open spec fn column_known(adv: Seq<bool>, fix: Seq<bool>, inst: Seq<bool>, c: Column) -> bool {
    match c.kind {
        ColumnKind::Advice => c.index < adv.len(),
        ColumnKind::Fixed => c.index < fix.len(),
        ColumnKind::Instance => c.index < inst.len(),
    }
}

pub open spec fn expr_wf(e: Expr, adv: Seq<bool>, fix: Seq<bool>, inst: Seq<bool>) -> bool
    decreases e,
{
    match e {
        Expr::Constant(_) => true,
        Expr::Query(c, _) => column_known(adv, fix, inst, c),
        Expr::Negated(a) => expr_wf(*a, adv, fix, inst),
        Expr::Sum(a, b) => expr_wf(*a, adv, fix, inst) && expr_wf(*b, adv, fix, inst),
        Expr::Product(a, b) => expr_wf(*a, adv, fix, inst) && expr_wf(*b, adv, fix, inst),
    }
}

/// Whether no gate of `gates` is named `name`.
pub open spec fn name_fresh(gates: Seq<Gate>, name: Seq<char>) -> bool {
    forall|g: int| 0 <= g < gates.len() ==> (#[trigger] gates[g]).name@ != name
}

pub open spec fn gate_wf(g: Gate, adv: Seq<bool>, fix: Seq<bool>, inst: Seq<bool>) -> bool {
    &&& g.polys@.len() > 0
    &&& match g.selector {
        Some(s) => s.kind == ColumnKind::Fixed && s.index < fix.len(),
        None => true,
    }
    &&& forall|j: int| 0 <= j < g.polys@.len() ==> expr_wf(#[trigger] g.polys@[j], adv, fix, inst)
}

fn flag_of(flags: &Vec<bool>, i: usize) -> (r: bool)
    ensures
        r == (i < flags@.len() && flags@[i as int]),
{
    if i < flags.len() {
        flags[i]
    } else {
        false
    }
}

fn column_known_exec(adv: &Vec<bool>, fix: &Vec<bool>, inst: &Vec<bool>, c: Column) -> (r: bool)
    ensures
        r == column_known(adv@, fix@, inst@, c),
{
    match c.kind {
        ColumnKind::Advice => c.index < adv.len(),
        ColumnKind::Fixed => c.index < fix.len(),
        ColumnKind::Instance => c.index < inst.len(),
    }
}

fn expr_wf_exec(e: &Expr, adv: &Vec<bool>, fix: &Vec<bool>, inst: &Vec<bool>) -> (r: bool)
    ensures
        r == expr_wf(*e, adv@, fix@, inst@),
    decreases e,
{
    match e {
        Expr::Constant(_) => true,
        Expr::Query(c, _) => column_known_exec(adv, fix, inst, *c),
        Expr::Negated(a) => expr_wf_exec(a, adv, fix, inst),
        Expr::Sum(a, b) => expr_wf_exec(a, adv, fix, inst) && expr_wf_exec(b, adv, fix, inst),
        Expr::Product(a, b) => expr_wf_exec(a, adv, fix, inst) && expr_wf_exec(b, adv, fix, inst),
    }
}

/// The registry used while a circuit is being configured. `finalize` freezes
/// it into a `Config`, after which nothing can be registered.
pub struct ConstraintSystem {
    pub field: PrimeField,
    pub k: u32,
    pub advice_eq: Vec<bool>,
    pub fixed_eq: Vec<bool>,
    pub instance_eq: Vec<bool>,
    pub gates: Vec<Gate>,
}

/// The frozen shape of a circuit.
pub struct Config {
    pub field: PrimeField,
    pub k: u32,
    pub advice_eq: Vec<bool>,
    pub fixed_eq: Vec<bool>,
    pub instance_eq: Vec<bool>,
    pub gates: Vec<Gate>,
}

impl ConstraintSystem {
    pub open spec fn wf(&self) -> bool {
        &&& self.field.wf()
        &&& self.k <= MAX_K
        &&& forall|g: int|
            0 <= g < self.gates@.len() ==> gate_wf(
                #[trigger] self.gates@[g],
                self.advice_eq@,
                self.fixed_eq@,
                self.instance_eq@,
            )
    }

    pub open spec fn knows(&self, c: Column) -> bool {
        column_known(self.advice_eq@, self.fixed_eq@, self.instance_eq@, c)
    }

    /// Starts a configuration over the field of the given modulus, for a grid
    /// of `2^k` rows.
    pub fn new(k: u32, modulus: u64) -> (r: Result<ConstraintSystem, ConfigError>)
        ensures
            (k <= MAX_K && modulus >= 2) <==> r.is_ok(),
            !(k <= MAX_K && modulus >= 2) ==> r == Err::<ConstraintSystem, ConfigError>(
                ConfigError::BadParameters,
            ),
            r matches Ok(cs) ==> {
                &&& cs.wf()
                &&& cs.k == k
                &&& cs.field.modulus == modulus
                &&& cs.advice_eq@.len() == 0
                &&& cs.fixed_eq@.len() == 0
                &&& cs.instance_eq@.len() == 0
                &&& cs.gates@.len() == 0
            },
    {
        if k > MAX_K || modulus < 2 {
            return Err(ConfigError::BadParameters);
        }
        Ok(ConstraintSystem {
            field: PrimeField { modulus },
            k,
            advice_eq: Vec::new(),
            fixed_eq: Vec::new(),
            instance_eq: Vec::new(),
            gates: Vec::new(),
        })
    }

    /// Allocates a fresh advice column, without the equality flag.
    pub fn advice_column(&mut self) -> (c: Column)
        requires
            old(self).wf(),
        ensures
            final(self).wf(),
            c.kind == ColumnKind::Advice,
            c.index == old(self).advice_eq@.len(),
            final(self).advice_eq@ == old(self).advice_eq@.push(false),
            final(self).fixed_eq@ == old(self).fixed_eq@,
            final(self).instance_eq@ == old(self).instance_eq@,
            final(self).gates@ == old(self).gates@,
            final(self).field == old(self).field,
            final(self).k == old(self).k,
    {
        let c = Column { kind: ColumnKind::Advice, index: self.advice_eq.len() };
        self.advice_eq.push(false);
        proof { self.lemma_gates_keep_wf(*old(self)); }
        c
    }

    /// Allocates a fresh fixed column, without the equality flag.
    pub fn fixed_column(&mut self) -> (c: Column)
        requires
            old(self).wf(),
        ensures
            final(self).wf(),
            c.kind == ColumnKind::Fixed,
            c.index == old(self).fixed_eq@.len(),
            final(self).advice_eq@ == old(self).advice_eq@,
            final(self).fixed_eq@ == old(self).fixed_eq@.push(false),
            final(self).instance_eq@ == old(self).instance_eq@,
            final(self).gates@ == old(self).gates@,
            final(self).field == old(self).field,
            final(self).k == old(self).k,
    {
        let c = Column { kind: ColumnKind::Fixed, index: self.fixed_eq.len() };
        self.fixed_eq.push(false);
        proof { self.lemma_gates_keep_wf(*old(self)); }
        c
    }

    /// Allocates a fresh instance column, without the equality flag.
    pub fn instance_column(&mut self) -> (c: Column)
        requires
            old(self).wf(),
        ensures
            final(self).wf(),
            c.kind == ColumnKind::Instance,
            c.index == old(self).instance_eq@.len(),
            final(self).advice_eq@ == old(self).advice_eq@,
            final(self).fixed_eq@ == old(self).fixed_eq@,
            final(self).instance_eq@ == old(self).instance_eq@.push(false),
            final(self).gates@ == old(self).gates@,
            final(self).field == old(self).field,
            final(self).k == old(self).k,
    {
        let c = Column { kind: ColumnKind::Instance, index: self.instance_eq.len() };
        self.instance_eq.push(false);
        proof { self.lemma_gates_keep_wf(*old(self)); }
        c
    }

    /// Growing the column lists keeps every registered gate well formed.
    proof fn lemma_gates_keep_wf(&self, before: ConstraintSystem)
        requires
            before.wf(),
            self.gates@ == before.gates@,
            self.field == before.field,
            self.k == before.k,
            before.advice_eq@.len() <= self.advice_eq@.len(),
            before.fixed_eq@.len() <= self.fixed_eq@.len(),
            before.instance_eq@.len() <= self.instance_eq@.len(),
        ensures
            self.wf(),
    {
        assert forall|g: int| 0 <= g < self.gates@.len() implies gate_wf(
            #[trigger] self.gates@[g],
            self.advice_eq@,
            self.fixed_eq@,
            self.instance_eq@,
        ) by {
            let gate = self.gates@[g];
            assert forall|j: int| 0 <= j < gate.polys@.len() implies expr_wf(
                #[trigger] gate.polys@[j],
                self.advice_eq@,
                self.fixed_eq@,
                self.instance_eq@,
            ) by {
                lemma_expr_wf_grows(
                    gate.polys@[j],
                    before.advice_eq@,
                    before.fixed_eq@,
                    before.instance_eq@,
                    self.advice_eq@,
                    self.fixed_eq@,
                    self.instance_eq@,
                );
            }
        }
    }

    /// Permits the column to take part in copy constraints and public-input
    /// bindings. Fails on a column that was never allocated.
    pub fn enable_equality(&mut self, c: Column) -> (r: Result<(), ConfigError>)
        requires
            old(self).wf(),
        ensures
            final(self).wf(),
            r.is_ok() <==> old(self).knows(c),
            r.is_err() ==> r == Err::<(), ConfigError>(ConfigError::UnknownColumn) && *final(self)
                == *old(self),
            r.is_ok() ==> {
                &&& final(self).advice_eq@ == (if c.kind == ColumnKind::Advice {
                    old(self).advice_eq@.update(c.index as int, true)
                } else {
                    old(self).advice_eq@
                })
                &&& final(self).fixed_eq@ == (if c.kind == ColumnKind::Fixed {
                    old(self).fixed_eq@.update(c.index as int, true)
                } else {
                    old(self).fixed_eq@
                })
                &&& final(self).instance_eq@ == (if c.kind == ColumnKind::Instance {
                    old(self).instance_eq@.update(c.index as int, true)
                } else {
                    old(self).instance_eq@
                })
                &&& final(self).gates@ == old(self).gates@
                &&& final(self).field == old(self).field
                &&& final(self).k == old(self).k
            },
    {
        if !column_known_exec(&self.advice_eq, &self.fixed_eq, &self.instance_eq, c) {
            return Err(ConfigError::UnknownColumn);
        }
        match c.kind {
            ColumnKind::Advice => self.advice_eq.set(c.index, true),
            ColumnKind::Fixed => self.fixed_eq.set(c.index, true),
            ColumnKind::Instance => self.instance_eq.set(c.index, true),
        }
        proof { self.lemma_gates_keep_wf(*old(self)); }
        Ok(())
    }

    /// Whether a gate named `name` is registered.
    pub fn has_gate(&self, name: &String) -> (r: bool)
        ensures
            r == !name_fresh(self.gates@, name@),
    {
        let mut g: usize = 0;
        while g < self.gates.len()
            invariant
                g <= self.gates@.len(),
                forall|i: int| 0 <= i < g ==> (#[trigger] self.gates@[i]).name@ != name@,
            decreases self.gates@.len() - g,
        {
            if self.gates[g].name == *name {
                return true;
            }
            g = g + 1;
        }
        false
    }

    /// Registers a gate. Fails when the name is taken, when the selector is
    /// not an allocated fixed column, when there is no polynomial, or when a
    /// polynomial queries a column that was never allocated.
    pub fn create_gate(&mut self, name: String, selector: Option<Column>, polys: Vec<Expr>) -> (r:
        Result<(), ConfigError>)
        requires
            old(self).wf(),
        ensures
            final(self).wf(),
            r.is_ok() <==> name_fresh(old(self).gates@, name@) && gate_wf(
                Gate { name, selector, polys },
                old(self).advice_eq@,
                old(self).fixed_eq@,
                old(self).instance_eq@,
            ),
            !name_fresh(old(self).gates@, name@) ==> r == Err::<(), ConfigError>(ConfigError::DuplicateGate),
            r.is_err() ==> *final(self) == *old(self),
            r.is_ok() ==> {
                &&& final(self).gates@ == old(self).gates@.push(Gate { name, selector, polys })
                &&& final(self).advice_eq@ == old(self).advice_eq@
                &&& final(self).fixed_eq@ == old(self).fixed_eq@
                &&& final(self).instance_eq@ == old(self).instance_eq@
                &&& final(self).field == old(self).field
                &&& final(self).k == old(self).k
            },
    {
        if self.has_gate(&name) {
            return Err(ConfigError::DuplicateGate);
        }
        match selector {
            Some(s) => {
                if s.kind != ColumnKind::Fixed {
                    return Err(ConfigError::SelectorNotFixed);
                }
                if s.index >= self.fixed_eq.len() {
                    return Err(ConfigError::UnknownColumn);
                }
            },
            None => {},
        }
        if polys.len() == 0 {
            return Err(ConfigError::EmptyGate);
        }
        let mut j: usize = 0;
        while j < polys.len()
            invariant
                0 <= j <= polys@.len(),
                *self == *old(self),
                self.wf(),
                name_fresh(self.gates@, name@),
                forall|i: int|
                    0 <= i < j ==> expr_wf(
                        #[trigger] polys@[i],
                        self.advice_eq@,
                        self.fixed_eq@,
                        self.instance_eq@,
                    ),
            decreases polys@.len() - j,
        {
            if !expr_wf_exec(&polys[j], &self.advice_eq, &self.fixed_eq, &self.instance_eq) {
                return Err(ConfigError::UnknownColumn);
            }
            j = j + 1;
        }
        self.gates.push(Gate { name, selector, polys });
        Ok(())
    }

    /// Freezes the registry.
    pub fn finalize(self) -> (c: Config)
        requires
            self.wf(),
        ensures
            c.wf(),
            c.field == self.field,
            c.k == self.k,
            c.advice_eq@ == self.advice_eq@,
            c.fixed_eq@ == self.fixed_eq@,
            c.instance_eq@ == self.instance_eq@,
            c.gates@ == self.gates@,
    {
        Config {
            field: self.field,
            k: self.k,
            advice_eq: self.advice_eq,
            fixed_eq: self.fixed_eq,
            instance_eq: self.instance_eq,
            gates: self.gates,
        }
    }
}

pub proof fn lemma_expr_wf_grows(
    e: Expr,
    a0: Seq<bool>,
    f0: Seq<bool>,
    i0: Seq<bool>,
    a1: Seq<bool>,
    f1: Seq<bool>,
    i1: Seq<bool>,
)
    requires
        expr_wf(e, a0, f0, i0),
        a0.len() <= a1.len(),
        f0.len() <= f1.len(),
        i0.len() <= i1.len(),
    ensures
        expr_wf(e, a1, f1, i1),
    decreases e,
{
    match e {
        Expr::Constant(_) => {},
        Expr::Query(_, _) => {},
        Expr::Negated(a) => lemma_expr_wf_grows(*a, a0, f0, i0, a1, f1, i1),
        Expr::Sum(a, b) => {
            lemma_expr_wf_grows(*a, a0, f0, i0, a1, f1, i1);
            lemma_expr_wf_grows(*b, a0, f0, i0, a1, f1, i1);
        },
        Expr::Product(a, b) => {
            lemma_expr_wf_grows(*a, a0, f0, i0, a1, f1, i1);
            lemma_expr_wf_grows(*b, a0, f0, i0, a1, f1, i1);
        },
    }
}

impl Config {
    pub open spec fn wf(&self) -> bool {
        &&& self.field.wf()
        &&& self.k <= MAX_K
        &&& forall|g: int|
            0 <= g < self.gates@.len() ==> gate_wf(
                #[trigger] self.gates@[g],
                self.advice_eq@,
                self.fixed_eq@,
                self.instance_eq@,
            )
    }

    pub open spec fn knows(&self, c: Column) -> bool {
        column_known(self.advice_eq@, self.fixed_eq@, self.instance_eq@, c)
    }

    /// Whether the column is allocated and carries the equality flag.
    pub open spec fn equality_enabled(&self, c: Column) -> bool {
        match c.kind {
            ColumnKind::Advice => c.index < self.advice_eq@.len() && self.advice_eq@[c.index as int],
            ColumnKind::Fixed => c.index < self.fixed_eq@.len() && self.fixed_eq@[c.index as int],
            ColumnKind::Instance => c.index < self.instance_eq@.len()
                && self.instance_eq@[c.index as int],
        }
    }

    pub open spec fn rows(&self) -> nat {
        rows_of(self.k as nat)
    }

    pub fn has_equality(&self, c: Column) -> (r: bool)
        ensures
            r == self.equality_enabled(c),
    {
        match c.kind {
            ColumnKind::Advice => flag_of(&self.advice_eq, c.index),
            ColumnKind::Fixed => flag_of(&self.fixed_eq, c.index),
            ColumnKind::Instance => flag_of(&self.instance_eq, c.index),
        }
    }

    /// Number of rows of the grid, `2^k`.
    pub fn num_rows(&self) -> (n: usize)
        requires
            self.k <= MAX_K,
        ensures
            n as nat == self.rows(),
            1 <= n <= 0x100_0000,
    {
        let mut n: usize = 1;
        let mut i: u32 = 0;
        proof { lemma_rows_bound(self.k as nat); }
        while i < self.k
            invariant
                i <= self.k <= MAX_K,
                n as nat == rows_of(i as nat),
                rows_of(self.k as nat) <= 0x100_0000,
            decreases self.k - i,
        {
            proof { lemma_rows_mono((i + 1) as nat, self.k as nat); }
            n = n * 2;
            i = i + 1;
        }
        n
    }
}

pub proof fn lemma_rows_mono(i: nat, j: nat)
    requires
        i <= j,
    ensures
        1 <= rows_of(i) <= rows_of(j),
    decreases j,
{
    if i < j {
        lemma_rows_mono(i, (j - 1) as nat);
    } else if i > 0 {
        lemma_rows_mono((i - 1) as nat, (i - 1) as nat);
    }
}

pub proof fn lemma_rows_bound(k: nat)
    requires
        k <= MAX_K,
    ensures
        1 <= rows_of(k) <= 0x100_0000,
{
    reveal_with_fuel(rows_of, 25);
    assert(rows_of(24) == 0x100_0000);
    lemma_rows_mono(k, 24);
}

} // verus!
