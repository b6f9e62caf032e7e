use vstd::prelude::*;
use crate::field::Fe;

verus! {

/// What a column holds: witness values, circuit constants or public inputs.
#[derive(Clone, Copy, Debug, PartialEq, Eq, Structural)]
pub enum ColumnKind {
    Advice,
    Fixed,
    Instance,
}

/// A column of the grid, by its position among all declared columns.
#[derive(Clone, Copy, Debug, PartialEq, Eq, Structural)]
pub struct Column {
    pub index: usize,
    pub kind: ColumnKind,
}

/// A per-row boolean flag that switches a gate on.
#[derive(Clone, Copy, Debug, PartialEq, Eq, Structural)]
pub struct Selector {
    pub index: usize,
}

/// A polynomial over cell values. `Query(c, k)` reads column `c` at `k` rows
/// below the current row, modulo the number of rows.
#[derive(Debug)]
pub enum Expr {
    Constant(Fe),
    Query(Column, usize),
    Sum(Box<Expr>, Box<Expr>),
    Difference(Box<Expr>, Box<Expr>),
    Product(Box<Expr>, Box<Expr>),
}

/// A named set of polynomials that must all vanish on every row where
/// the selector is enabled.
#[derive(Debug)]
pub struct Gate {
    pub name: String,
    pub selector: Selector,
    pub polys: Vec<Expr>,
}

/// Errors in the shape of a circuit, reported while it is configured.
#[derive(Clone, Copy, Debug, PartialEq, Eq, Structural)]
pub enum ConfigError {
    /// The column was not declared on this constraint system.
    UnknownColumn(Column),
    /// The column's kind does not support the request.
    UnsupportedColumnKind(Column),
    /// The selector was not declared on this constraint system.
    UnknownSelector(Selector),
    /// A gate reads a column that was not declared.
    UnknownGateColumn,
    /// A gate of the same name exists already.
    DuplicateGateName,
    /// A column was given where a different column was needed.
    RepeatedColumn(Column),
}

/// Why `c` cannot serve as a column of kind `kind`, if it cannot.
pub open spec fn kind_error(columns: Seq<ColumnKind>, c: Column, kind: ColumnKind) -> Option<ConfigError> {
    if !column_declared(columns, c) {
        Some(ConfigError::UnknownColumn(c))
    } else if c.kind != kind {
        Some(ConfigError::UnsupportedColumnKind(c))
    } else {
        None
    }
}

/// The shape of a gate, as a value.
pub struct GateView {
    pub name: Seq<char>,
    pub selector: Selector,
    pub polys: Seq<Expr>,
}

/// The shape of a constraint system, as a value.
pub struct ShapeView {
    pub columns: Seq<ColumnKind>,
    pub num_selectors: nat,
    pub equality: Seq<bool>,
    pub constants: Seq<Column>,
    pub gates: Seq<GateView>,
}

pub open spec fn gate_view(g: Gate) -> GateView {
    GateView { name: g.name@, selector: g.selector, polys: g.polys@ }
}

/// Every constant in the expression is a canonical field element.
pub open spec fn expr_consts_wf(e: Expr) -> bool
    decreases e,
{
    match e {
        Expr::Constant(c) => c.wf(),
        Expr::Query(_, _) => true,
        Expr::Sum(l, r) => expr_consts_wf(*l) && expr_consts_wf(*r),
        Expr::Difference(l, r) => expr_consts_wf(*l) && expr_consts_wf(*r),
        Expr::Product(l, r) => expr_consts_wf(*l) && expr_consts_wf(*r),
    }
}

pub open spec fn column_declared(columns: Seq<ColumnKind>, c: Column) -> bool {
    c.index < columns.len() && columns[c.index as int] == c.kind
}

/// Every column the expression reads is declared.
pub open spec fn expr_columns_declared(e: Expr, columns: Seq<ColumnKind>) -> bool
    decreases e,
{
    match e {
        Expr::Constant(_) => true,
        Expr::Query(c, _) => column_declared(columns, c),
        Expr::Sum(l, r) => expr_columns_declared(*l, columns) && expr_columns_declared(*r, columns),
        Expr::Difference(l, r) => expr_columns_declared(*l, columns) && expr_columns_declared(
            *r,
            columns,
        ),
        Expr::Product(l, r) => expr_columns_declared(*l, columns) && expr_columns_declared(
            *r,
            columns,
        ),
    }
}

pub open spec fn gate_wf(g: Gate, columns: Seq<ColumnKind>, num_selectors: nat) -> bool {
    &&& g.selector.index < num_selectors
    &&& forall|j: int|
        0 <= j < g.polys@.len() ==> expr_consts_wf(#[trigger] g.polys@[j])
            && expr_columns_declared(g.polys@[j], columns)
}

pub open spec fn has_gate_named(gates: Seq<Gate>, name: Seq<char>) -> bool {
    exists|i: int| 0 <= i < gates.len() && (#[trigger] gates[i]).name@ == name
}

/// Columns, selectors and gates of a circuit, declared before any witness.
#[derive(Debug)]
pub struct ConstraintSystem {
    pub columns: Vec<ColumnKind>,
    pub num_selectors: usize,
    pub equality: Vec<bool>,
    pub constants: Vec<Column>,
    pub gates: Vec<Gate>,
}

impl ConstraintSystem {
    pub open spec fn shape(self) -> ShapeView {
        ShapeView {
            columns: self.columns@,
            num_selectors: self.num_selectors as nat,
            equality: self.equality@,
            constants: self.constants@,
            gates: self.gates@.map_values(|g: Gate| gate_view(g)),
        }
    }

    pub open spec fn wf(self) -> bool {
        &&& self.equality@.len() == self.columns@.len()
        &&& forall|i: int|
            0 <= i < self.constants@.len() ==> {
                let c = #[trigger] self.constants@[i];
                column_declared(self.columns@, c) && c.kind == ColumnKind::Fixed
                    && self.equality@[c.index as int]
            }
        &&& forall|i: int|
            0 <= i < self.gates@.len() ==> gate_wf(
                #[trigger] self.gates@[i],
                self.columns@,
                self.num_selectors as nat,
            )
    }

    pub open spec fn empty_shape() -> ShapeView {
        ShapeView {
            columns: Seq::empty(),
            num_selectors: 0,
            equality: Seq::empty(),
            constants: Seq::empty(),
            gates: Seq::empty(),
        }
    }

    pub fn new() -> (r: ConstraintSystem)
        ensures
            r.wf(),
            r.shape() == Self::empty_shape(),
    {
        let r = ConstraintSystem {
            columns: Vec::new(),
            num_selectors: 0,
            equality: Vec::new(),
            constants: Vec::new(),
            gates: Vec::new(),
        };
        assert(r.shape().gates =~= Seq::empty());
        r
    }

    fn add_column(&mut self, kind: ColumnKind) -> (r: Column)
        requires
            old(self).wf(),
            old(self).columns@.len() < usize::MAX,
        ensures
            final(self).wf(),
            final(self).gates@ == old(self).gates@,
            r == (Column { index: old(self).columns@.len() as usize, kind }),
            final(self).shape() == (ShapeView {
                columns: old(self).shape().columns.push(kind),
                equality: old(self).shape().equality.push(false),
                ..old(self).shape()
            }),
    {
        let index = self.columns.len();
        self.columns.push(kind);
        self.equality.push(false);
        let r = Column { index, kind };
        proof {
            let s = *final(self);
            assert forall|i: int| 0 <= i < s.gates@.len() implies gate_wf(
                #[trigger] s.gates@[i],
                s.columns@,
                s.num_selectors as nat,
            ) by {
                let g = s.gates@[i];
                assert(gate_wf(g, old(self).columns@, s.num_selectors as nat));
                assert forall|j: int| 0 <= j < g.polys@.len() implies expr_columns_declared(
                    #[trigger] g.polys@[j],
                    s.columns@,
                ) by {
                    lemma_columns_grow(g.polys@[j], old(self).columns@, s.columns@);
                }
            }
        }
        r
    }

    /// Declares a new witness column.
    pub fn add_advice_column(&mut self) -> (r: Column)
        requires
            old(self).wf(),
            old(self).columns@.len() < usize::MAX,
        ensures
            final(self).wf(),
            final(self).gates@ == old(self).gates@,
            r == (Column { index: old(self).columns@.len() as usize, kind: ColumnKind::Advice }),
            final(self).shape() == (ShapeView {
                columns: old(self).shape().columns.push(ColumnKind::Advice),
                equality: old(self).shape().equality.push(false),
                ..old(self).shape()
            }),
    {
        self.add_column(ColumnKind::Advice)
    }

    /// Declares a new column of circuit constants.
    pub fn add_fixed_column(&mut self) -> (r: Column)
        requires
            old(self).wf(),
            old(self).columns@.len() < usize::MAX,
        ensures
            final(self).wf(),
            final(self).gates@ == old(self).gates@,
            r == (Column { index: old(self).columns@.len() as usize, kind: ColumnKind::Fixed }),
            final(self).shape() == (ShapeView {
                columns: old(self).shape().columns.push(ColumnKind::Fixed),
                equality: old(self).shape().equality.push(false),
                ..old(self).shape()
            }),
    {
        self.add_column(ColumnKind::Fixed)
    }

    /// Declares a new column of public inputs.
    pub fn add_instance_column(&mut self) -> (r: Column)
        requires
            old(self).wf(),
            old(self).columns@.len() < usize::MAX,
        ensures
            final(self).wf(),
            final(self).gates@ == old(self).gates@,
            r == (Column { index: old(self).columns@.len() as usize, kind: ColumnKind::Instance }),
            final(self).shape() == (ShapeView {
                columns: old(self).shape().columns.push(ColumnKind::Instance),
                equality: old(self).shape().equality.push(false),
                ..old(self).shape()
            }),
    {
        self.add_column(ColumnKind::Instance)
    }

    /// Declares a new selector.
    pub fn add_selector(&mut self) -> (r: Selector)
        requires
            old(self).wf(),
            old(self).num_selectors < usize::MAX,
        ensures
            final(self).wf(),
            final(self).gates@ == old(self).gates@,
            r == (Selector { index: old(self).num_selectors }),
            final(self).shape() == (ShapeView {
                num_selectors: old(self).shape().num_selectors + 1,
                ..old(self).shape()
            }),
    {
        let r = Selector { index: self.num_selectors };
        self.num_selectors = self.num_selectors + 1;
        r
    }

    /// Succeeds when `c` is a declared column of kind `kind`.
    pub fn check_kind(&self, c: Column, kind: ColumnKind) -> (r: Result<(), ConfigError>)
        ensures
            r == match kind_error(self.columns@, c, kind) {
                Some(e) => Err::<(), ConfigError>(e),
                None => Ok(()),
            },
    {
        if !self.has_column(c) {
            return Err(ConfigError::UnknownColumn(c));
        }
        if c.kind != kind {
            return Err(ConfigError::UnsupportedColumnKind(c));
        }
        Ok(())
    }

    /// Whether `c` was declared here.
    pub fn has_column(&self, c: Column) -> (r: bool)
        ensures
            r == column_declared(self.columns@, c),
    {
        c.index < self.columns.len() && self.columns[c.index] == c.kind
    }

    /// Marks a column as one that copy constraints may reference.
    pub fn enable_equality(&mut self, c: Column) -> (r: Result<(), ConfigError>)
        requires
            old(self).wf(),
        ensures
            final(self).wf(),
            final(self).gates@ == old(self).gates@,
            r is Ok <==> column_declared(old(self).columns@, c),
            r is Err ==> r == Err::<(), ConfigError>(ConfigError::UnknownColumn(c))
                && *final(self) == *old(self),
            r is Ok ==> final(self).shape() == (ShapeView {
                equality: old(self).shape().equality.update(c.index as int, true),
                ..old(self).shape()
            }),
    {
        if !self.has_column(c) {
            return Err(ConfigError::UnknownColumn(c));
        }
        self.equality.set(c.index, true);
        Ok(())
    }

    /// Marks a fixed column as the home of constants that advice cells are
    /// copied from; copy constraints are enabled on it as well.
    pub fn enable_constant(&mut self, c: Column) -> (r: Result<(), ConfigError>)
        requires
            old(self).wf(),
        ensures
            final(self).wf(),
            final(self).gates@ == old(self).gates@,
            r is Ok <==> column_declared(old(self).columns@, c) && c.kind == ColumnKind::Fixed,
            !column_declared(old(self).columns@, c) ==> r == Err::<(), ConfigError>(
                ConfigError::UnknownColumn(c),
            ),
            column_declared(old(self).columns@, c) && c.kind != ColumnKind::Fixed ==> r == Err::<
                (),
                ConfigError,
            >(ConfigError::UnsupportedColumnKind(c)),
            r is Err ==> *final(self) == *old(self),
            r is Ok ==> final(self).shape() == (ShapeView {
                equality: old(self).shape().equality.update(c.index as int, true),
                constants: old(self).shape().constants.push(c),
                ..old(self).shape()
            }),
    {
        if !self.has_column(c) {
            return Err(ConfigError::UnknownColumn(c));
        }
        if c.kind != ColumnKind::Fixed {
            return Err(ConfigError::UnsupportedColumnKind(c));
        }
        self.equality.set(c.index, true);
        self.constants.push(c);
        Ok(())
    }

    /// Whether a gate of this name exists.
    pub fn has_gate(&self, name: &String) -> (r: bool)
        ensures
            r == has_gate_named(self.gates@, name@),
    {
        let mut i: usize = 0;
        while i < self.gates.len()
            invariant
                0 <= i <= self.gates@.len(),
                forall|k: int| 0 <= k < i ==> (#[trigger] self.gates@[k]).name@ != name@,
            decreases self.gates@.len() - i,
        {
            if self.gates[i].name == *name {
                return true;
            }
            i = i + 1;
        }
        false
    }

    /// Adds a gate whose polynomials must vanish wherever `selector` is on.
    pub fn create_gate(&mut self, name: String, selector: Selector, polys: Vec<Expr>) -> (r: Result<
        (),
        ConfigError,
    >)
        requires
            old(self).wf(),
            forall|j: int| 0 <= j < polys@.len() ==> expr_consts_wf(#[trigger] polys@[j]),
        ensures
            final(self).wf(),
            has_gate_named(old(self).gates@, name@) ==> r == Err::<(), ConfigError>(
                ConfigError::DuplicateGateName,
            ),
            !has_gate_named(old(self).gates@, name@) && selector.index >= old(self).num_selectors
                ==> r == Err::<(), ConfigError>(ConfigError::UnknownSelector(selector)),
            !has_gate_named(old(self).gates@, name@) && selector.index < old(self).num_selectors
                ==> (r is Ok <==> forall|j: int|
                0 <= j < polys@.len() ==> expr_columns_declared(
                    #[trigger] polys@[j],
                    old(self).columns@,
                )),
            r is Err ==> *final(self) == *old(self),
            r is Err && !has_gate_named(old(self).gates@, name@) && selector.index
                < old(self).num_selectors ==> r == Err::<(), ConfigError>(
                ConfigError::UnknownGateColumn,
            ),
            r is Ok ==> final(self).shape() == (ShapeView {
                gates: old(self).shape().gates.push(
                    GateView { name: name@, selector, polys: polys@ },
                ),
                ..old(self).shape()
            }),
    {
        if self.has_gate(&name) {
            return Err(ConfigError::DuplicateGateName);
        }
        if selector.index >= self.num_selectors {
            return Err(ConfigError::UnknownSelector(selector));
        }
        let mut j: usize = 0;
        while j < polys.len()
            invariant
                0 <= j <= polys@.len(),
                *self == *old(self),
                self.wf(),
                !has_gate_named(self.gates@, name@),
                selector.index < self.num_selectors,
                forall|k: int|
                    0 <= k < j ==> expr_columns_declared(#[trigger] polys@[k], self.columns@),
            decreases polys@.len() - j,
        {
            if !self.expr_declared(&polys[j]) {
                return Err(ConfigError::UnknownGateColumn);
            }
            j = j + 1;
        }
        let ghost old_gates = self.gates@;
        self.gates.push(Gate { name, selector, polys });
        proof {
            let s = *final(self);
            assert(s.gates@ == old_gates.push(s.gates@.last()));
            assert forall|i: int| 0 <= i < s.gates@.len() implies gate_wf(
                #[trigger] s.gates@[i],
                s.columns@,
                s.num_selectors as nat,
            ) by {
                if i < old_gates.len() {
                    assert(s.gates@[i] == old_gates[i]);
                }
            }
            assert(s.shape().gates =~= old(self).shape().gates.push(
                GateView { name: name@, selector, polys: polys@ },
            ));
        }
        Ok(())
    }

    /// Whether every column that `e` reads is declared.
    pub fn expr_declared(&self, e: &Expr) -> (r: bool)
        ensures
            r == expr_columns_declared(*e, self.columns@),
        decreases e,
    {
        match e {
            Expr::Constant(_) => true,
            Expr::Query(c, _) => self.has_column(*c),
            Expr::Sum(l, r) => self.expr_declared(l) && self.expr_declared(r),
            Expr::Difference(l, r) => self.expr_declared(l) && self.expr_declared(r),
            Expr::Product(l, r) => self.expr_declared(l) && self.expr_declared(r),
        }
    }
}

pub proof fn lemma_columns_grow(e: Expr, a: Seq<ColumnKind>, b: Seq<ColumnKind>)
    requires
        expr_columns_declared(e, a),
        a.len() <= b.len(),
        forall|i: int| 0 <= i < a.len() ==> a[i] == b[i],
    ensures
        expr_columns_declared(e, b),
    decreases e,
{
    match e {
        Expr::Constant(_) => {},
        Expr::Query(_, _) => {},
        Expr::Sum(l, r) => {
            lemma_columns_grow(*l, a, b);
            lemma_columns_grow(*r, a, b);
        },
        Expr::Difference(l, r) => {
            lemma_columns_grow(*l, a, b);
            lemma_columns_grow(*r, a, b);
        },
        Expr::Product(l, r) => {
            lemma_columns_grow(*l, a, b);
            lemma_columns_grow(*r, a, b);
        },
    }
}

} // verus!
