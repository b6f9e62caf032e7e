use vstd::prelude::*;
use crate::field::Fe;
use crate::plonk::{column_declared, Column, ColumnKind, ConstraintSystem, Selector};

verus! {

/// The coordinates of one cell: a column and an absolute row.
#[derive(Clone, Copy, Debug, PartialEq, Eq, Structural)]
pub struct CellRef {
    pub column: Column,
    pub row: usize,
}

/// A cell together with the value that was placed in it: `None` while
/// the value is not known, as when a circuit is laid out without witness.
#[derive(Clone, Copy, Debug)]
pub struct AssignedCell {
    pub cell: CellRef,
    pub value: Option<Fe>,
}

/// A known value is a canonical field element.
pub open spec fn value_wf(v: Option<Fe>) -> bool {
    v matches Some(x) ==> x.wf()
}

/// What a cell holds after `new` is placed over `old`: an unknown value
/// leaves the cell as it was.
pub open spec fn merged(old: Option<Fe>, new: Option<Fe>) -> Option<Fe> {
    if new is Some {
        new
    } else {
        old
    }
}

/// Errors raised while a witness is placed.
#[derive(Clone, Copy, Debug, PartialEq, Eq, Structural)]
pub enum AssignmentError {
    /// The column was not declared on the constraint system.
    UnknownColumn(Column),
    /// The column's kind does not allow this assignment.
    WrongColumnKind(Column),
    /// The selector was not declared on the constraint system.
    UnknownSelector(Selector),
    /// The row offset lies beyond the grid.
    OutOfGrid(usize),
    /// The cell already holds a different value.
    CellConflict(CellRef),
    /// Copy constraints are not enabled on the column.
    EqualityNotEnabled(Column),
    /// No fixed column was set aside for constants.
    NoConstantColumn,
    /// The grid does not fit in memory.
    GridTooLarge,
    /// A witness value is unknown.
    MissingWitness,
}

/// The number of rows of a grid of size parameter `k`: `2^k`.
pub open spec fn rows_for(k: nat) -> nat
    decreases k,
{
    if k == 0 {
        1
    } else {
        2 * rows_for((k - 1) as nat)
    }
}

pub proof fn lemma_rows_for_grows(i: nat, k: nat)
    requires
        i <= k,
    ensures
        rows_for(i) <= rows_for(k),
        rows_for(k) >= 1,
    decreases k,
{
    if k > 0 {
        if i < k {
            lemma_rows_for_grows(i, (k - 1) as nat);
        }
        lemma_rows_for_grows(0, (k - 1) as nat);
    }
}

pub proof fn lemma_index_in_grid(c: int, r: int, cols: int, n: int)
    requires
        0 <= c < cols,
        0 <= r < n,
    ensures
        0 <= c * n + r < cols * n,
        c * n + r < (c + 1) * n,
{
    assert(0 <= c * n && 0 <= c * n + r < cols * n && c * n + r < (c + 1) * n) by (nonlinear_arith)
        requires
            0 <= c < cols,
            0 <= r < n,
    ;
}

/// Two cells at different coordinates of the grid sit at different indices.
pub proof fn lemma_index_distinct(c1: int, r1: int, c2: int, r2: int, n: int)
    requires
        0 <= c1,
        0 <= c2,
        0 <= r1 < n,
        0 <= r2 < n,
        c1 != c2 || r1 != r2,
    ensures
        c1 * n + r1 != c2 * n + r2,
{
    if c1 == c2 {
    } else if c1 < c2 {
        assert(c1 * n + r1 < c2 * n + r2) by (nonlinear_arith)
            requires
                0 <= c1 < c2,
                0 <= r1 < n,
                0 <= r2,
        ;
    } else {
        assert(c2 * n + r2 < c1 * n + r1) by (nonlinear_arith)
            requires
                0 <= c2 < c1,
                0 <= r2 < n,
                0 <= r1,
        ;
    }
}

/// Rows past the open region stay unassigned when the cells do not change
/// and the region does not shrink.
pub proof fn lemma_free_rows_kept(a: Assignment, b: Assignment)
    requires
        a.wf(),
        b.cells@ == a.cells@,
        b.n == a.n,
        b.num_columns == a.num_columns,
        b.region_start + b.region_height >= a.region_start + a.region_height,
    ensures
        forall|c: CellRef|
            b.in_grid(c) && c.row >= b.region_start + b.region_height ==> (
            #[trigger] b.value_at(c)) is None,
{
    assert forall|c: CellRef|
        b.in_grid(c) && c.row >= b.region_start + b.region_height implies (
        #[trigger] b.value_at(c)) is None by {
        assert(a.value_at(c) is None);
    }
}

/// The witness of a circuit, with the copy constraints and public-input
/// ties recorded while it was placed. Cells are stored column
/// by column: the cell `(c, r)` is at index `c * n + r`.
#[derive(Debug)]
pub struct Assignment {
    pub n: usize,
    pub num_columns: usize,
    pub num_selectors: usize,
    pub cells: Vec<Option<Fe>>,
    pub enabled: Vec<bool>,
    pub copies: Vec<(CellRef, CellRef)>,
    pub exposed: Vec<(CellRef, usize)>,
    pub regions: Vec<String>,
    pub region_start: usize,
    pub region_height: usize,
}

impl Assignment {
    pub open spec fn in_grid(self, c: CellRef) -> bool {
        c.column.index < self.num_columns && c.row < self.n
    }

    pub open spec fn index(self, c: CellRef) -> int {
        c.column.index * self.n + c.row
    }

    /// What the cell holds, if it was assigned.
    pub open spec fn value_at(self, c: CellRef) -> Option<Fe> {
        self.cells@[self.index(c)]
    }

    /// The cell's value as a number; a cell without value reads as zero here,
    /// and the checker reports a gate that reads one.
    pub open spec fn cell_val(self, c: CellRef) -> int {
        match self.value_at(c) {
            Some(v) => v.val(),
            None => 0,
        }
    }

    pub open spec fn is_enabled(self, s: Selector, row: int) -> bool {
        self.enabled@[s.index * self.n + row]
    }

    pub open spec fn wf(self) -> bool {
        &&& self.n > 0
        &&& self.cells@.len() == self.num_columns * self.n
        &&& self.enabled@.len() == self.num_selectors * self.n
        &&& self.region_start + self.region_height <= self.n
        &&& forall|c: CellRef|
            self.in_grid(c) && c.row >= self.region_start + self.region_height ==> (
            #[trigger] self.value_at(c)) is None
        &&& forall|i: int| 0 <= i < self.cells@.len() ==> match #[trigger] self.cells@[i] {
            Some(v) => v.wf(),
            None => true,
        }
        &&& forall|i: int|
            0 <= i < self.copies@.len() ==> self.in_grid((#[trigger] self.copies@[i]).0)
                && self.in_grid(self.copies@[i].1)
        &&& forall|i: int| 0 <= i < self.exposed@.len() ==> self.in_grid((#[trigger] self.exposed@[i]).0)
    }

    /// The assignment belongs to the constraint system: same columns and selectors.
    pub open spec fn fits(self, cs: ConstraintSystem) -> bool {
        &&& self.wf()
        &&& cs.wf()
        &&& self.num_columns == cs.columns@.len()
        &&& self.num_selectors == cs.num_selectors
    }

    /// The fields that only `new` and `begin_region` change.
    pub open spec fn same_frame(self, o: Assignment) -> bool {
        &&& self.n == o.n
        &&& self.num_columns == o.num_columns
        &&& self.num_selectors == o.num_selectors
        &&& self.regions@ == o.regions@
        &&& self.region_start == o.region_start
    }

    /// An empty witness of `2^k` rows for `cs`; `GridTooLarge` when the grid
    /// would not fit in memory.
    pub fn new(cs: &ConstraintSystem, k: u32) -> (r: Result<Assignment, AssignmentError>)
        requires
            cs.wf(),
        ensures
            r is Ok <==> rows_for(k as nat) * cs.columns@.len() <= usize::MAX && rows_for(k as nat)
                * cs.num_selectors <= usize::MAX && rows_for(k as nat) <= usize::MAX,
            r is Err ==> r == Err::<Assignment, AssignmentError>(AssignmentError::GridTooLarge),
            r matches Ok(a) ==> {
                &&& a.fits(*cs)
                &&& a.n == rows_for(k as nat)
                &&& forall|i: int| 0 <= i < a.cells@.len() ==> a.cells@[i] is None
                &&& forall|i: int| 0 <= i < a.enabled@.len() ==> !a.enabled@[i]
                &&& a.copies@.len() == 0
                &&& a.exposed@.len() == 0
                &&& a.region_start == 0
                &&& a.region_height == 0
            },
    {
        let mut n: usize = 1;
        let mut i: u32 = 0;
        while i < k
            invariant
                i <= k,
                n == rows_for(i as nat),
            decreases k - i,
        {
            if n > usize::MAX / 2 {
                proof {
                    lemma_rows_for_grows((i + 1) as nat, k as nat);
                }
                return Err(AssignmentError::GridTooLarge);
            }
            n = n * 2;
            i = i + 1;
        }
        proof {
            lemma_rows_for_grows(0, k as nat);
        }
        let ncells = match n.checked_mul(cs.columns.len()) {
            Some(t) => t,
            None => {
                return Err(AssignmentError::GridTooLarge);
            },
        };
        let nsel = match n.checked_mul(cs.num_selectors) {
            Some(t) => t,
            None => {
                return Err(AssignmentError::GridTooLarge);
            },
        };
        let mut cells: Vec<Option<Fe>> = Vec::new();
        let mut j: usize = 0;
        while j < ncells
            invariant
                j <= ncells,
                cells@.len() == j,
                forall|t: int| 0 <= t < j ==> cells@[t] is None,
            decreases ncells - j,
        {
            cells.push(None);
            j = j + 1;
        }
        let mut enabled: Vec<bool> = Vec::new();
        let mut j: usize = 0;
        while j < nsel
            invariant
                j <= nsel,
                enabled@.len() == j,
                forall|t: int| 0 <= t < j ==> !enabled@[t],
            decreases nsel - j,
        {
            enabled.push(false);
            j = j + 1;
        }
        proof {
            assert(n * cs.columns@.len() == cs.columns@.len() * n) by (nonlinear_arith);
            assert(n * cs.num_selectors == cs.num_selectors * n) by (nonlinear_arith);
        }
        let r = Assignment {
                n,
                num_columns: cs.columns.len(),
                num_selectors: cs.num_selectors,
                cells,
                enabled,
                copies: Vec::new(),
                exposed: Vec::new(),
                regions: Vec::new(),
                region_start: 0,
                region_height: 0,
            };
        proof {
            assert forall|c: CellRef| r.in_grid(c) implies (#[trigger] r.value_at(c)) is None by {
                lemma_index_in_grid(c.column.index as int, c.row as int, r.num_columns as int, r.n as int);
            }
        }
        Ok(r)
    }

    /// Opens a new region just below the rows that the earlier regions used.
    pub fn begin_region(&mut self, name: String)
        requires
            old(self).wf(),
        ensures
            final(self).wf(),
            final(self).region_start == old(self).region_start + old(self).region_height,
            final(self).region_height == 0,
            final(self).regions@ == old(self).regions@.push(name),
            final(self).n == old(self).n,
            final(self).num_columns == old(self).num_columns,
            final(self).num_selectors == old(self).num_selectors,
            final(self).cells@ == old(self).cells@,
            final(self).enabled@ == old(self).enabled@,
            final(self).copies@ == old(self).copies@,
            final(self).exposed@ == old(self).exposed@,
    {
        self.region_start = self.region_start + self.region_height;
        self.region_height = 0;
        self.regions.push(name);
        proof {
            lemma_free_rows_kept(*old(self), *final(self));
        }
    }

    /// `post` has one region more than `pre`, the last one named `name`.
    pub open spec fn region_opened(pre: Assignment, post: Assignment, name: Seq<char>) -> bool {
        &&& post.regions@.len() == pre.regions@.len() + 1
        &&& post.regions@.last()@ == name
        &&& post.regions@.drop_last() == pre.regions@
    }

    pub proof fn lemma_region_opened(pre: Assignment, post: Assignment, name: String)
        requires
            post.regions@ == pre.regions@.push(name),
        ensures
            Self::region_opened(pre, post, name@),
    {
        assert(post.regions@.drop_last() =~= pre.regions@);
    }

    /// The cell `(column, start + offset)` of the open region.
    pub open spec fn region_cell(self, column: Column, offset: usize) -> CellRef {
        CellRef { column, row: (self.region_start + offset) as usize }
    }

    pub open spec fn grown_height(self, offset: usize) -> usize {
        if self.region_height > offset + 1 {
            self.region_height
        } else {
            (offset + 1) as usize
        }
    }

    /// What `assign` does: the error it owes on each input, and the one cell
    /// that changes otherwise.
    pub open spec fn assign_spec(
        self,
        cs: ConstraintSystem,
        column: Column,
        kind: ColumnKind,
        offset: usize,
        value: Option<Fe>,
        r: Result<AssignedCell, AssignmentError>,
        post: Assignment,
    ) -> bool {
        let cell = self.region_cell(column, offset);
        if !column_declared(cs.columns@, column) {
            r == Err::<AssignedCell, AssignmentError>(AssignmentError::UnknownColumn(column))
                && post == self
        } else if column.kind != kind {
            r == Err::<AssignedCell, AssignmentError>(AssignmentError::WrongColumnKind(column))
                && post == self
        } else if offset >= self.n - self.region_start {
            r == Err::<AssignedCell, AssignmentError>(AssignmentError::OutOfGrid(offset))
                && post == self
        } else if self.value_at(cell) matches Some(v) && value matches Some(w) && v.val() != w.val() {
            r == Err::<AssignedCell, AssignmentError>(AssignmentError::CellConflict(cell))
                && post == self
        } else {
            &&& r == Ok::<AssignedCell, AssignmentError>(AssignedCell { cell, value })
            &&& post.same_frame(self)
            &&& post.cells@ == self.cells@.update(self.index(cell), merged(self.value_at(cell), value))
            &&& post.region_height == self.grown_height(offset)
            &&& post.enabled@ == self.enabled@
            &&& post.copies@ == self.copies@
            &&& post.exposed@ == self.exposed@
        }
    }

    fn assign(&mut self, cs: &ConstraintSystem, column: Column, kind: ColumnKind, offset: usize, value: Option<Fe>) -> (r: Result<
        AssignedCell,
        AssignmentError,
    >)
        requires
            old(self).fits(*cs),
            value_wf(value),
        ensures
            final(self).fits(*cs),
            old(self).assign_spec(*cs, column, kind, offset, value, r, *final(self)),
    {
        if !cs.has_column(column) {
            return Err(AssignmentError::UnknownColumn(column));
        }
        if column.kind != kind {
            return Err(AssignmentError::WrongColumnKind(column));
        }
        if offset >= self.n - self.region_start {
            return Err(AssignmentError::OutOfGrid(offset));
        }
        let cell = CellRef { column, row: self.region_start + offset };
        let total = self.cells.len();
        proof {
            lemma_index_in_grid(column.index as int, cell.row as int, self.num_columns as int, self.n as int);
        }
        let i = column.index * self.n + cell.row;
        if let Some(w) = value {
            if let Some(v) = self.cells[i] {
                if !v.equals(&w) {
                    return Err(AssignmentError::CellConflict(cell));
                }
            }
            self.cells.set(i, Some(w));
        } else {
            assert(self.cells@ =~= old(self).cells@.update(i as int, old(self).cells@[i as int]));
        }
        if self.region_height <= offset {
            self.region_height = offset + 1;
        }
        proof {
            let s = *final(self);
            assert forall|c: CellRef|
                s.in_grid(c) && c.row >= s.region_start + s.region_height implies (
                #[trigger] s.value_at(c)) is None by {
                lemma_index_distinct(c.column.index as int, c.row as int, column.index as int, cell.row as int, s.n as int);
                lemma_index_in_grid(c.column.index as int, c.row as int, s.num_columns as int, s.n as int);
                assert(old(self).value_at(c) is None);
            }
        }
        Ok(AssignedCell { cell, value })
    }

    /// Places a witness value, known or not, in an advice column of the
    /// open region.
    pub fn assign_advice(&mut self, cs: &ConstraintSystem, column: Column, offset: usize, value: Option<Fe>) -> (r:
        Result<AssignedCell, AssignmentError>)
        requires
            old(self).fits(*cs),
            value_wf(value),
        ensures
            final(self).fits(*cs),
            old(self).assign_spec(*cs, column, ColumnKind::Advice, offset, value, r, *final(self)),
    {
        self.assign(cs, column, ColumnKind::Advice, offset, value)
    }

    /// Places a circuit constant in a fixed column of the open region.
    pub fn assign_fixed(&mut self, cs: &ConstraintSystem, column: Column, offset: usize, value: Fe) -> (r:
        Result<AssignedCell, AssignmentError>)
        requires
            old(self).fits(*cs),
            value.wf(),
        ensures
            final(self).fits(*cs),
            old(self).assign_spec(*cs, column, ColumnKind::Fixed, offset, Some(value), r, *final(self)),
    {
        self.assign(cs, column, ColumnKind::Fixed, offset, Some(value))
    }
    /// Switches `selector` on at `offset` in the open region.
    pub fn enable_selector(&mut self, selector: Selector, offset: usize) -> (r: Result<(), AssignmentError>)
        requires
            old(self).wf(),
        ensures
            final(self).wf(),
            selector.index >= old(self).num_selectors ==> r == Err::<(), AssignmentError>(
                AssignmentError::UnknownSelector(selector),
            ),
            selector.index < old(self).num_selectors && offset >= old(self).n - old(self).region_start
                ==> r == Err::<(), AssignmentError>(AssignmentError::OutOfGrid(offset)),
            r is Ok <==> selector.index < old(self).num_selectors && offset < old(self).n
                - old(self).region_start,
            r is Err ==> *final(self) == *old(self),
            r is Ok ==> {
                &&& selector.index < old(self).num_selectors
                &&& offset < old(self).n - old(self).region_start
                &&& final(self).same_frame(*old(self))
                &&& final(self).enabled@ == old(self).enabled@.update(
                    selector.index * old(self).n + old(self).region_start + offset,
                    true,
                )
                &&& final(self).region_height == old(self).grown_height(offset)
                &&& final(self).cells@ == old(self).cells@
                &&& final(self).copies@ == old(self).copies@
                &&& final(self).exposed@ == old(self).exposed@
            },
    {
        if selector.index >= self.num_selectors {
            return Err(AssignmentError::UnknownSelector(selector));
        }
        if offset >= self.n - self.region_start {
            return Err(AssignmentError::OutOfGrid(offset));
        }
        let row = self.region_start + offset;
        let total = self.enabled.len();
        proof {
            lemma_index_in_grid(selector.index as int, row as int, self.num_selectors as int, self.n as int);
        }
        self.enabled.set(selector.index * self.n + row, true);
        if self.region_height <= offset {
            self.region_height = offset + 1;
        }
        proof {
            lemma_free_rows_kept(*old(self), *final(self));
        }
        Ok(())
    }

    /// Places `source`'s value in an advice cell of the open region and
    /// records that the two cells must be equal.
    pub fn copy_advice(&mut self, cs: &ConstraintSystem, source: &AssignedCell, column: Column, offset: usize) -> (r:
        Result<AssignedCell, AssignmentError>)
        requires
            old(self).fits(*cs),
            old(self).in_grid(source.cell),
            value_wf(source.value),
        ensures
            final(self).fits(*cs),
            !cs.equality@[source.cell.column.index as int] ==> r == Err::<AssignedCell, AssignmentError>(
                AssignmentError::EqualityNotEnabled(source.cell.column),
            ) && *final(self) == *old(self),
            cs.equality@[source.cell.column.index as int] && column_declared(cs.columns@, column)
                && !cs.equality@[column.index as int] ==> r == Err::<AssignedCell, AssignmentError>(
                AssignmentError::EqualityNotEnabled(column),
            ) && *final(self) == *old(self),
            cs.equality@[source.cell.column.index as int] && (!column_declared(cs.columns@, column)
                || cs.equality@[column.index as int]) ==> exists|mid: Assignment|
                {
                    &&& #[trigger] old(self).assign_spec(
                        *cs,
                        column,
                        ColumnKind::Advice,
                        offset,
                        source.value,
                        r,
                        mid,
                    )
                    &&& r is Ok ==> final(self).copies@ == mid.copies@.push(
                        (source.cell, r->Ok_0.cell),
                    ) && final(self).same_frame(mid) && final(self).cells@ == mid.cells@
                        && final(self).region_height == mid.region_height && final(self).enabled@
                        == mid.enabled@ && final(self).exposed@ == mid.exposed@
                    &&& r is Err ==> *final(self) == mid
                },
    {
        if !cs.equality[source.cell.column.index] {
            return Err(AssignmentError::EqualityNotEnabled(source.cell.column));
        }
        if cs.has_column(column) && !cs.equality[column.index] {
            return Err(AssignmentError::EqualityNotEnabled(column));
        }
        let r = self.assign(cs, column, ColumnKind::Advice, offset, source.value);
        let ghost mid = *self;
        match r {
            Ok(c) => {
                self.copies.push((source.cell, c.cell));
                proof {
                    lemma_free_rows_kept(mid, *final(self));
                }
                Ok(c)
            },
            Err(e) => Err(e),
        }
    }

    /// The cell of the constant column that a constant placed at
    /// `(column, start + offset)` is copied from: the same row.
    pub open spec fn constant_cell(self, cs: ConstraintSystem, offset: usize) -> CellRef {
        CellRef { column: cs.constants@[0], row: (self.region_start + offset) as usize }
    }

    /// Places `constant` in an advice cell of the open region, places it
    /// in the constant column on the same row too, and records that the two
    /// cells must be equal.
    pub fn assign_advice_from_constant(&mut self, cs: &ConstraintSystem, column: Column, offset: usize, constant: Fe) -> (r:
        Result<AssignedCell, AssignmentError>)
        requires
            old(self).fits(*cs),
            constant.wf(),
        ensures
            final(self).fits(*cs),
            r is Err ==> *final(self) == *old(self),
            ({
                let cell = old(self).region_cell(column, offset);
                let ccell = old(self).constant_cell(*cs, offset);
                if cs.constants@.len() == 0 {
                    r == Err::<AssignedCell, AssignmentError>(AssignmentError::NoConstantColumn)
                } else if !column_declared(cs.columns@, column) {
                    r == Err::<AssignedCell, AssignmentError>(AssignmentError::UnknownColumn(column))
                } else if column.kind != ColumnKind::Advice {
                    r == Err::<AssignedCell, AssignmentError>(AssignmentError::WrongColumnKind(column))
                } else if !cs.equality@[column.index as int] {
                    r == Err::<AssignedCell, AssignmentError>(AssignmentError::EqualityNotEnabled(column))
                } else if offset >= old(self).n - old(self).region_start {
                    r == Err::<AssignedCell, AssignmentError>(AssignmentError::OutOfGrid(offset))
                } else if old(self).value_at(ccell) matches Some(v) && v.val() != constant.val() {
                    r == Err::<AssignedCell, AssignmentError>(AssignmentError::CellConflict(ccell))
                } else if old(self).value_at(cell) matches Some(v) && v.val() != constant.val() {
                    r == Err::<AssignedCell, AssignmentError>(AssignmentError::CellConflict(cell))
                } else {
                    &&& r == Ok::<AssignedCell, AssignmentError>(AssignedCell { cell, value: Some(constant) })
                    &&& final(self).same_frame(*old(self))
                    &&& final(self).cells@ == old(self).cells@.update(old(self).index(cell), Some(constant)).update(
                        old(self).index(ccell),
                        Some(constant),
                    )
                    &&& final(self).region_height == old(self).grown_height(offset)
                    &&& final(self).enabled@ == old(self).enabled@
                    &&& final(self).copies@ == old(self).copies@.push((cell, ccell))
                    &&& final(self).exposed@ == old(self).exposed@
                }
            }),
    {
        if cs.constants.len() == 0 {
            return Err(AssignmentError::NoConstantColumn);
        }
        if !cs.has_column(column) {
            return Err(AssignmentError::UnknownColumn(column));
        }
        if column.kind != ColumnKind::Advice {
            return Err(AssignmentError::WrongColumnKind(column));
        }
        if !cs.equality[column.index] {
            return Err(AssignmentError::EqualityNotEnabled(column));
        }
        if offset >= self.n - self.region_start {
            return Err(AssignmentError::OutOfGrid(offset));
        }
        let ccol = cs.constants[0];
        let row = self.region_start + offset;
        let ccell = CellRef { column: ccol, row };
        let total = self.cells.len();
        proof {
            assert(column_declared(cs.columns@, ccol));
            lemma_index_in_grid(ccol.index as int, row as int, self.num_columns as int, self.n as int);
            lemma_index_in_grid(column.index as int, row as int, self.num_columns as int, self.n as int);
            lemma_index_distinct(column.index as int, row as int, ccol.index as int, row as int, self.n as int);
        }
        let ci = ccol.index * self.n + row;
        if let Some(v) = self.cells[ci] {
            if !v.equals(&constant) {
                return Err(AssignmentError::CellConflict(ccell));
            }
        }
        let ghost pre = *self;
        let c = match self.assign(cs, column, ColumnKind::Advice, offset, Some(constant)) {
            Ok(c) => c,
            Err(e) => {
                return Err(e);
            },
        };
        let ghost mid = *self;
        self.cells.set(ci, Some(constant));
        self.copies.push((c.cell, ccell));
        proof {
            let s = *final(self);
            assert forall|x: CellRef|
                s.in_grid(x) && x.row >= s.region_start + s.region_height implies (
                #[trigger] s.value_at(x)) is None by {
                lemma_index_distinct(x.column.index as int, x.row as int, ccol.index as int, row as int, s.n as int);
                lemma_index_in_grid(x.column.index as int, x.row as int, s.num_columns as int, s.n as int);
                assert(mid.value_at(x) is None);
            }
        }
        Ok(c)
    }

    /// Ties `cell` to the public input at `position`, through the instance
    /// column `instance`.
    pub fn constrain_instance(&mut self, cs: &ConstraintSystem, cell: CellRef, instance: Column, position: usize) -> (r:
        Result<(), AssignmentError>)
        requires
            old(self).fits(*cs),
            old(self).in_grid(cell),
        ensures
            final(self).fits(*cs),
            !column_declared(cs.columns@, instance) ==> r == Err::<(), AssignmentError>(
                AssignmentError::UnknownColumn(instance),
            ),
            column_declared(cs.columns@, instance) && instance.kind != ColumnKind::Instance ==> r
                == Err::<(), AssignmentError>(AssignmentError::WrongColumnKind(instance)),
            column_declared(cs.columns@, instance) && instance.kind == ColumnKind::Instance
                && !cs.equality@[instance.index as int] ==> r == Err::<(), AssignmentError>(
                AssignmentError::EqualityNotEnabled(instance),
            ),
            column_declared(cs.columns@, instance) && instance.kind == ColumnKind::Instance
                && cs.equality@[instance.index as int] && !cs.equality@[cell.column.index as int]
                ==> r == Err::<(), AssignmentError>(AssignmentError::EqualityNotEnabled(cell.column)),
            r is Ok <==> column_declared(cs.columns@, instance) && instance.kind == ColumnKind::Instance
                && cs.equality@[instance.index as int] && cs.equality@[cell.column.index as int],
            r is Err ==> *final(self) == *old(self),
            r is Ok ==> {
                &&& final(self).exposed@ == old(self).exposed@.push((cell, position))
                &&& final(self).same_frame(*old(self))
                &&& final(self).region_height == old(self).region_height
                &&& final(self).cells@ == old(self).cells@
                &&& final(self).enabled@ == old(self).enabled@
                &&& final(self).copies@ == old(self).copies@
            },
    {
        if !cs.has_column(instance) {
            return Err(AssignmentError::UnknownColumn(instance));
        }
        if instance.kind != ColumnKind::Instance {
            return Err(AssignmentError::WrongColumnKind(instance));
        }
        if !cs.equality[instance.index] {
            return Err(AssignmentError::EqualityNotEnabled(instance));
        }
        if !cs.equality[cell.column.index] {
            return Err(AssignmentError::EqualityNotEnabled(cell.column));
        }
        self.exposed.push((cell, position));
        proof {
            lemma_free_rows_kept(*old(self), *final(self));
        }
        Ok(())
    }
}

} // verus!
