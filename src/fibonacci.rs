use vstd::prelude::*;
use crate::field::{modulus, value_add, Fe};
use crate::layout::value_wf;
use crate::layout::{rows_for, AssignedCell, Assignment, AssignmentError, CellRef};
use crate::prover::{expr_assigned, check, copy_failures, eval, failures, gate_failures, poly_failures, public_failures, row_failures, Error, Failure};
use crate::plonk::{
    kind_error, column_declared, has_gate_named, ColumnKind, Column, ConfigError, ConstraintSystem, Expr,
    GateView, Selector, ShapeView,
};

verus! {

/// The columns and selector of the Fibonacci chip.
#[derive(Clone, Copy, Debug)]
pub struct FibonacciConfig {
    pub advice: [Column; 3],
    pub selector: Selector,
}

/// The polynomial of the `add` gate, `a + b - c` on the current row.
pub open spec fn add_poly(a: Column, b: Column, c: Column) -> Expr {
    Expr::Difference(
        Box::new(Expr::Sum(Box::new(Expr::Query(a, 0)), Box::new(Expr::Query(b, 0)))),
        Box::new(Expr::Query(c, 0)),
    )
}

impl FibonacciConfig {
    /// The configuration names three distinct advice columns with copy
    /// constraints enabled, and a selector of `cs`.
    pub open spec fn valid(self, cs: ConstraintSystem) -> bool {
        &&& forall|i: int|
            0 <= i < 3 ==> column_declared(cs.columns@, #[trigger] self.advice@[i])
                && self.advice@[i].kind == ColumnKind::Advice && cs.equality@[self.advice@[i].index as int]
        &&& self.advice@[0].index != self.advice@[1].index
        &&& self.advice@[0].index != self.advice@[2].index
        &&& self.advice@[1].index != self.advice@[2].index
        &&& self.selector.index < cs.num_selectors
    }
}

/// Places the rows of a Fibonacci table, one region per row.
pub struct FibonacciChip {
    pub config: FibonacciConfig,
}

impl FibonacciChip {
    pub fn construct(config: FibonacciConfig) -> (r: FibonacciChip)
        ensures
            r.config == config,
    {
        FibonacciChip { config }
    }

    /// The shape that `configure` gives a system of shape `s`.
    pub open spec fn configured_shape(s: ShapeView, advice: [Column; 3]) -> ShapeView {
        ShapeView {
            num_selectors: s.num_selectors + 1,
            equality: s.equality.update(advice@[0].index as int, true).update(
                advice@[1].index as int,
                true,
            ).update(advice@[2].index as int, true),
            gates: s.gates.push(
                GateView {
                    name: "add"@,
                    selector: Selector { index: s.num_selectors as usize },
                    polys: seq![add_poly(advice@[0], advice@[1], advice@[2])],
                },
            ),
            ..s
        }
    }

    /// Declares the selector, enables copy constraints on the three columns
    /// and declares `add`, which asks `a + b - c = 0` on each selected row.
    pub fn configure(meta: &mut ConstraintSystem, advice: [Column; 3]) -> (r: Result<FibonacciConfig, ConfigError>)
        requires
            old(meta).wf(),
            old(meta).num_selectors < usize::MAX,
        ensures
            final(meta).wf(),
            r is Err ==> *final(meta) == *old(meta),
            kind_error(old(meta).columns@, advice@[0], ColumnKind::Advice) matches Some(e) ==> r == Err::<
                FibonacciConfig,
                ConfigError,
            >(e),
            kind_error(old(meta).columns@, advice@[0], ColumnKind::Advice) is None && kind_error(
                old(meta).columns@,
                advice@[1],
                ColumnKind::Advice,
            ) is Some ==> r == Err::<FibonacciConfig, ConfigError>(
                kind_error(old(meta).columns@, advice@[1], ColumnKind::Advice)->Some_0,
            ),
            kind_error(old(meta).columns@, advice@[0], ColumnKind::Advice) is None && kind_error(
                old(meta).columns@,
                advice@[1],
                ColumnKind::Advice,
            ) is None && kind_error(old(meta).columns@, advice@[2], ColumnKind::Advice) is Some ==> r == Err::<
                FibonacciConfig,
                ConfigError,
            >(kind_error(old(meta).columns@, advice@[2], ColumnKind::Advice)->Some_0),
            (forall|i: int| 0 <= i < 3 ==> kind_error(old(meta).columns@, #[trigger] advice@[i], ColumnKind::Advice) is None)
                ==> if advice@[0].index == advice@[1].index {
                r == Err::<FibonacciConfig, ConfigError>(ConfigError::RepeatedColumn(advice@[1]))
            } else if advice@[2].index == advice@[0].index || advice@[2].index == advice@[1].index {
                r == Err::<FibonacciConfig, ConfigError>(ConfigError::RepeatedColumn(advice@[2]))
            } else if has_gate_named(old(meta).gates@, "add"@) {
                r == Err::<FibonacciConfig, ConfigError>(ConfigError::DuplicateGateName)
            } else {
                &&& r == Ok::<FibonacciConfig, ConfigError>(
                    FibonacciConfig { advice, selector: Selector { index: old(meta).num_selectors } },
                )
                &&& final(meta).shape() == Self::configured_shape(old(meta).shape(), advice)
                &&& r->Ok_0.valid(*final(meta))
            },
    {
        let col_a = advice[0];
        let col_b = advice[1];
        let col_c = advice[2];
        if let Err(e) = meta.check_kind(col_a, ColumnKind::Advice) {
            return Err(e);
        }
        if let Err(e) = meta.check_kind(col_b, ColumnKind::Advice) {
            return Err(e);
        }
        if let Err(e) = meta.check_kind(col_c, ColumnKind::Advice) {
            return Err(e);
        }
        if col_a.index == col_b.index {
            return Err(ConfigError::RepeatedColumn(col_b));
        }
        if col_c.index == col_a.index || col_c.index == col_b.index {
            return Err(ConfigError::RepeatedColumn(col_c));
        }
        if meta.has_gate(&"add".to_owned()) {
            proof {
                reveal_strlit("add");
            }
            return Err(ConfigError::DuplicateGateName);
        }
        proof {
            reveal_strlit("add");
        }
        let selector = meta.add_selector();
        let ghost s1 = meta.shape();
        let ra = meta.enable_equality(col_a);
        if let Err(e) = ra {
            return Err(e);
        }
        let rb = meta.enable_equality(col_b);
        if let Err(e) = rb {
            return Err(e);
        }
        let rc = meta.enable_equality(col_c);
        if let Err(e) = rc {
            return Err(e);
        }
        let poly = Expr::Difference(
            Box::new(Expr::Sum(Box::new(Expr::Query(col_a, 0)), Box::new(Expr::Query(col_b, 0)))),
            Box::new(Expr::Query(col_c, 0)),
        );
        let polys = vec![poly];
        let name = "add".to_owned();
        proof {
            reveal_strlit("add");
            reveal_with_fuel(crate::plonk::expr_consts_wf, 4);
            assert(crate::plonk::expr_consts_wf(polys@[0]));
            reveal_with_fuel(crate::plonk::expr_columns_declared, 4);
            assert(crate::plonk::expr_columns_declared(polys@[0], meta.columns@));
            assert(meta.columns@ == old(meta).columns@);
            assert(polys@ =~= seq![add_poly(col_a, col_b, col_c)]);
        }
        let rg = meta.create_gate(name, selector, polys);
        if let Err(e) = rg {
            return Err(e);
        }
        proof {
            assert(final(meta).shape() == Self::configured_shape(old(meta).shape(), advice));
            let cfg = FibonacciConfig { advice, selector };
            assert(forall|i: int| 0 <= i < 3 ==> kind_error(old(meta).columns@, #[trigger] advice@[i], ColumnKind::Advice) is None);
            assert(final(meta).equality@ == old(meta).equality@.update(col_a.index as int, true).update(col_b.index as int, true).update(col_c.index as int, true));
            assert(final(meta).columns@ == old(meta).columns@);
            assert(forall|i: int| 0 <= i < 3 ==> #[trigger] cfg.advice@[i] == advice@[i]);
            assert(cfg.advice@[0] == col_a && cfg.advice@[1] == col_b && cfg.advice@[2] == col_c);
        }
        Ok(FibonacciConfig { advice, selector })
    }
    /// The first free row of `lay`: where the next region starts.
    pub open spec fn next_row(lay: Assignment) -> int {
        lay.region_start + lay.region_height
    }

    /// `post` is `pre` with one more region of one row, at `next_row(pre)`,
    /// whose advice cells hold `va`, `vb`, `vc` and whose selector is on.
    pub open spec fn row_placed(self, pre: Assignment, post: Assignment, va: Option<Fe>, vb: Option<Fe>, vc: Option<Fe>) -> bool {
        let r0 = Self::next_row(pre);
        let cell = |i: int| CellRef { column: self.config.advice@[i], row: r0 as usize };
        &&& post.n == pre.n
        &&& post.num_columns == pre.num_columns
        &&& post.num_selectors == pre.num_selectors
        &&& post.region_start == r0
        &&& post.region_height == 1
        &&& post.cells@ == pre.cells@.update(pre.index(cell(0)), va).update(
            pre.index(cell(1)),
            vb,
        ).update(pre.index(cell(2)), vc)
        &&& post.enabled@ == pre.enabled@.update(self.config.selector.index * pre.n + r0, true)
        &&& post.exposed@ == pre.exposed@
    }

    /// Opens the region `first row` and places the seeds `a`, `b` and their
    /// sum in it, with the selector on.
    pub fn assign_first_row(&self, cs: &ConstraintSystem, layouter: &mut Assignment, a: Option<Fe>, b: Option<Fe>) -> (r: Result<
        (AssignedCell, AssignedCell, AssignedCell),
        AssignmentError,
    >)
        requires
            old(layouter).fits(*cs),
            self.config.valid(*cs),
            value_wf(a),
            value_wf(b),
        ensures
            final(layouter).fits(*cs),
            r is Ok <==> Self::next_row(*old(layouter)) < old(layouter).n,
            r is Err ==> r == Err::<(AssignedCell, AssignedCell, AssignedCell), AssignmentError>(
                AssignmentError::OutOfGrid(0),
            ),
            r matches Ok((ca, cb, cc)) ==> {
                let r0 = Self::next_row(*old(layouter)) as usize;
                &&& ca == AssignedCell { cell: CellRef { column: self.config.advice@[0], row: r0 }, value: a }
                &&& cb == AssignedCell { cell: CellRef { column: self.config.advice@[1], row: r0 }, value: b }
                &&& cc.cell == CellRef { column: self.config.advice@[2], row: r0 }
                &&& value_wf(cc.value)
                &&& cc.value is Some <==> a is Some && b is Some
                &&& cc.value matches Some(z) ==> z.val() == (a->Some_0.val() + b->Some_0.val()) % modulus()
                &&& self.row_placed(*old(layouter), *final(layouter), a, b, cc.value)
                &&& Assignment::region_opened(*old(layouter), *final(layouter), "first row"@)
                &&& final(layouter).copies@ == old(layouter).copies@
            },
    {
        let ghost pre = *layouter;
        let ghost before_region = *layouter;
        let region_name = "first row".to_owned();
        let ghost name_kept = region_name;
        layouter.begin_region(region_name);
        proof {
            Assignment::lemma_region_opened(before_region, *layouter, name_kept);
        }
        let ghost r0 = layouter.region_start;
        let ghost mid = *layouter;
        let config = self.config;
        assert(config.selector.index < layouter.num_selectors);
        let rs = layouter.enable_selector(config.selector, 0);
        if let Err(e) = rs {
            return Err(e);
        }
        proof {
            assert(column_declared(cs.columns@, config.advice@[0]));
            assert(column_declared(cs.columns@, config.advice@[1]));
            assert(column_declared(cs.columns@, config.advice@[2]));
            assert(mid.value_at(CellRef { column: config.advice@[0], row: r0 }) is None);
            assert(mid.value_at(CellRef { column: config.advice@[1], row: r0 }) is None);
            assert(mid.value_at(CellRef { column: config.advice@[2], row: r0 }) is None);
        }
        let c_val = value_add(&a, &b);
        let ghost after_sel = *layouter;
        let ca = layouter.assign_advice(cs, config.advice[0], 0, a);
        let ca = match ca {
            Ok(c) => c,
            Err(e) => {
                return Err(e);
            },
        };
        proof {
            crate::layout::lemma_index_distinct(config.advice@[0].index as int, r0 as int, config.advice@[1].index as int, r0 as int, pre.n as int);
            crate::layout::lemma_index_distinct(config.advice@[0].index as int, r0 as int, config.advice@[2].index as int, r0 as int, pre.n as int);
            crate::layout::lemma_index_distinct(config.advice@[1].index as int, r0 as int, config.advice@[2].index as int, r0 as int, pre.n as int);
            crate::layout::lemma_index_in_grid(config.advice@[0].index as int, r0 as int, pre.num_columns as int, pre.n as int);
            crate::layout::lemma_index_in_grid(config.advice@[1].index as int, r0 as int, pre.num_columns as int, pre.n as int);
            crate::layout::lemma_index_in_grid(config.advice@[2].index as int, r0 as int, pre.num_columns as int, pre.n as int);
        }
        proof {
            let c1 = CellRef { column: config.advice@[1], row: r0 };
            let c0 = CellRef { column: config.advice@[0], row: r0 };
            assert(after_sel.cells@ == mid.cells@);
            assert(after_sel.region_cell(config.advice@[0], 0) == c0);
            assert(layouter.cells@ == after_sel.cells@.update(after_sel.index(c0), a));
            assert(after_sel.value_at(c1) is None);
            assert(layouter.region_start == r0);
            assert(layouter.n == pre.n);
            assert(layouter.index(c1) != layouter.index(CellRef { column: config.advice@[0], row: r0 }));
            assert(layouter.value_at(c1) is None);
            assert(config.advice@[1].kind == ColumnKind::Advice);
        }
        let cb = layouter.assign_advice(cs, config.advice[1], 0, b);
        let cb = match cb {
            Ok(c) => c,
            Err(e) => {
                return Err(e);
            },
        };
        proof {
            let c2 = CellRef { column: config.advice@[2], row: r0 };
            assert(layouter.region_start == r0);
            assert(layouter.index(c2) != layouter.index(CellRef { column: config.advice@[0], row: r0 }));
            assert(layouter.index(c2) != layouter.index(CellRef { column: config.advice@[1], row: r0 }));
            assert(layouter.value_at(c2) is None);
        }
        let cc = layouter.assign_advice(cs, config.advice[2], 0, c_val);
        let cc = match cc {
            Ok(c) => c,
            Err(e) => {
                return Err(e);
            },
        };
        Ok((ca, cb, cc))
    }
    /// Opens the region `next row`, copies `prev_b` and `prev_c` into its
    /// first two cells and places their sum in the third, with the selector on.
    pub fn assign_row(&self, cs: &ConstraintSystem, layouter: &mut Assignment, prev_b: &AssignedCell, prev_c: &AssignedCell) -> (r:
        Result<AssignedCell, AssignmentError>)
        requires
            old(layouter).fits(*cs),
            self.config.valid(*cs),
            old(layouter).in_grid(prev_b.cell),
            old(layouter).in_grid(prev_c.cell),
            value_wf(prev_b.value),
            value_wf(prev_c.value),
        ensures
            final(layouter).fits(*cs),
            Self::next_row(*old(layouter)) >= old(layouter).n ==> r == Err::<AssignedCell, AssignmentError>(
                AssignmentError::OutOfGrid(0),
            ),
            Self::next_row(*old(layouter)) < old(layouter).n && !cs.equality@[prev_b.cell.column.index as int]
                ==> r == Err::<AssignedCell, AssignmentError>(
                AssignmentError::EqualityNotEnabled(prev_b.cell.column),
            ),
            Self::next_row(*old(layouter)) < old(layouter).n && cs.equality@[prev_b.cell.column.index as int]
                && !cs.equality@[prev_c.cell.column.index as int] ==> r == Err::<AssignedCell, AssignmentError>(
                AssignmentError::EqualityNotEnabled(prev_c.cell.column),
            ),
            r is Ok <==> Self::next_row(*old(layouter)) < old(layouter).n
                && cs.equality@[prev_b.cell.column.index as int] && cs.equality@[prev_c.cell.column.index as int],
            r matches Ok(cc) ==> {
                let r0 = Self::next_row(*old(layouter)) as usize;
                &&& cc.cell == CellRef { column: self.config.advice@[2], row: r0 }
                &&& value_wf(cc.value)
                &&& cc.value is Some <==> prev_b.value is Some && prev_c.value is Some
                &&& cc.value matches Some(z) ==> z.val() == (prev_b.value->Some_0.val() + prev_c.value->Some_0.val())
                    % modulus()
                &&& self.row_placed(*old(layouter), *final(layouter), prev_b.value, prev_c.value, cc.value)
                &&& Assignment::region_opened(*old(layouter), *final(layouter), "next row"@)
                &&& final(layouter).copies@ == old(layouter).copies@.push(
                    (prev_b.cell, CellRef { column: self.config.advice@[0], row: r0 }),
                ).push((prev_c.cell, CellRef { column: self.config.advice@[1], row: r0 }))
            },
    {
        let ghost pre = *layouter;
        let ghost before_region = *layouter;
        let region_name = "next row".to_owned();
        let ghost name_kept = region_name;
        layouter.begin_region(region_name);
        proof {
            Assignment::lemma_region_opened(before_region, *layouter, name_kept);
        }
        let ghost r0 = layouter.region_start;
        let ghost mid = *layouter;
        let config = self.config;
        assert(config.selector.index < layouter.num_selectors);
        let rs = layouter.enable_selector(config.selector, 0);
        if let Err(e) = rs {
            return Err(e);
        }
        proof {
            assert(column_declared(cs.columns@, config.advice@[0]));
            assert(column_declared(cs.columns@, config.advice@[1]));
            assert(column_declared(cs.columns@, config.advice@[2]));
            crate::layout::lemma_index_distinct(config.advice@[0].index as int, r0 as int, config.advice@[1].index as int, r0 as int, pre.n as int);
            crate::layout::lemma_index_distinct(config.advice@[0].index as int, r0 as int, config.advice@[2].index as int, r0 as int, pre.n as int);
            crate::layout::lemma_index_distinct(config.advice@[1].index as int, r0 as int, config.advice@[2].index as int, r0 as int, pre.n as int);
            crate::layout::lemma_index_in_grid(config.advice@[0].index as int, r0 as int, pre.num_columns as int, pre.n as int);
            crate::layout::lemma_index_in_grid(config.advice@[1].index as int, r0 as int, pre.num_columns as int, pre.n as int);
            crate::layout::lemma_index_in_grid(config.advice@[2].index as int, r0 as int, pre.num_columns as int, pre.n as int);
            assert(mid.value_at(CellRef { column: config.advice@[0], row: r0 }) is None);
            assert(mid.value_at(CellRef { column: config.advice@[1], row: r0 }) is None);
            assert(mid.value_at(CellRef { column: config.advice@[2], row: r0 }) is None);
        }
        let ghost after_sel = *layouter;
        let ra = layouter.copy_advice(cs, prev_b, config.advice[0], 0);
        let ra = match ra {
            Ok(c) => c,
            Err(e) => {
                return Err(e);
            },
        };
        let ghost after_a = *layouter;
        proof {
            let c0 = CellRef { column: config.advice@[0], row: r0 };
            let m = choose|m: Assignment|
                #[trigger] after_sel.assign_spec(*cs, config.advice@[0], ColumnKind::Advice, 0, prev_b.value, Ok::<AssignedCell, AssignmentError>(ra), m)
                && (Ok::<AssignedCell, AssignmentError>(ra) is Ok ==> after_a.copies@ == m.copies@.push((prev_b.cell, ra.cell))
                    && after_a.same_frame(m) && after_a.cells@ == m.cells@ && after_a.region_height == m.region_height
                    && after_a.enabled@ == m.enabled@ && after_a.exposed@ == m.exposed@)
                && (Ok::<AssignedCell, AssignmentError>(ra) is Err ==> after_a == m);
            assert(after_a.cells@ == after_sel.cells@.update(after_sel.index(c0), prev_b.value));
            assert(after_a.value_at(CellRef { column: config.advice@[1], row: r0 }) is None);
            assert(after_a.value_at(CellRef { column: config.advice@[2], row: r0 }) is None);
        }
        let rb = layouter.copy_advice(cs, prev_c, config.advice[1], 0);
        let rb = match rb {
            Ok(c) => c,
            Err(e) => {
                return Err(e);
            },
        };
        let ghost after_b = *layouter;
        proof {
            let c1 = CellRef { column: config.advice@[1], row: r0 };
            let m = choose|m: Assignment|
                #[trigger] after_a.assign_spec(*cs, config.advice@[1], ColumnKind::Advice, 0, prev_c.value, Ok::<AssignedCell, AssignmentError>(rb), m)
                && (Ok::<AssignedCell, AssignmentError>(rb) is Ok ==> after_b.copies@ == m.copies@.push((prev_c.cell, rb.cell))
                    && after_b.same_frame(m) && after_b.cells@ == m.cells@ && after_b.region_height == m.region_height
                    && after_b.enabled@ == m.enabled@ && after_b.exposed@ == m.exposed@)
                && (Ok::<AssignedCell, AssignmentError>(rb) is Err ==> after_b == m);
            assert(after_b.cells@ == after_a.cells@.update(after_a.index(c1), prev_c.value));
            assert(after_b.value_at(CellRef { column: config.advice@[2], row: r0 }) is None);
        }
        let c_val = value_add(&prev_b.value, &prev_c.value);
        let rc = layouter.assign_advice(cs, config.advice[2], 0, c_val);
        let rc = match rc {
            Ok(c) => c,
            Err(e) => {
                return Err(e);
            },
        };
        Ok(rc)
    }
    /// After one row is placed, a cell holds the new value if it is one of
    /// the row's three cells and what it held before otherwise.
    pub proof fn lemma_row_cells(self, pre: Assignment, post: Assignment, va: Option<Fe>, vb: Option<Fe>, vc: Option<Fe>, c: CellRef)
        requires
            pre.wf(),
            self.row_placed(pre, post, va, vb, vc),
            Self::next_row(pre) < pre.n,
            self.config.advice@[0].index < pre.num_columns,
            self.config.advice@[1].index < pre.num_columns,
            self.config.advice@[2].index < pre.num_columns,
            self.config.advice@[0].index != self.config.advice@[1].index,
            self.config.advice@[0].index != self.config.advice@[2].index,
            self.config.advice@[1].index != self.config.advice@[2].index,
            pre.in_grid(c),
        ensures
            post.value_at(c) == if c.row == Self::next_row(pre) && c.column.index == self.config.advice@[0].index {
                va
            } else if c.row == Self::next_row(pre) && c.column.index == self.config.advice@[1].index {
                vb
            } else if c.row == Self::next_row(pre) && c.column.index == self.config.advice@[2].index {
                vc
            } else {
                pre.value_at(c)
            },
    {
        let r0 = Self::next_row(pre);
        let n = pre.n as int;
        let adv = self.config.advice@;
        crate::layout::lemma_index_in_grid(c.column.index as int, c.row as int, pre.num_columns as int, n);
        crate::layout::lemma_index_in_grid(adv[0].index as int, r0, pre.num_columns as int, n);
        crate::layout::lemma_index_in_grid(adv[1].index as int, r0, pre.num_columns as int, n);
        crate::layout::lemma_index_in_grid(adv[2].index as int, r0, pre.num_columns as int, n);
        crate::layout::lemma_index_distinct(adv[0].index as int, r0, adv[1].index as int, r0, n);
        crate::layout::lemma_index_distinct(adv[0].index as int, r0, adv[2].index as int, r0, n);
        crate::layout::lemma_index_distinct(adv[1].index as int, r0, adv[2].index as int, r0, n);
        if !(c.row == r0 && c.column.index == adv[0].index) {
            crate::layout::lemma_index_distinct(c.column.index as int, c.row as int, adv[0].index as int, r0, n);
        }
        if !(c.row == r0 && c.column.index == adv[1].index) {
            crate::layout::lemma_index_distinct(c.column.index as int, c.row as int, adv[1].index as int, r0, n);
        }
        if !(c.row == r0 && c.column.index == adv[2].index) {
            crate::layout::lemma_index_distinct(c.column.index as int, c.row as int, adv[2].index as int, r0, n);
        }
    }

    /// After one row is placed, its selector is on at that row and every
    /// other flag is as before.
    pub proof fn lemma_row_selectors(self, pre: Assignment, post: Assignment, va: Option<Fe>, vb: Option<Fe>, vc: Option<Fe>, s: Selector, row: int)
        requires
            pre.wf(),
            self.row_placed(pre, post, va, vb, vc),
            Self::next_row(pre) < pre.n,
            self.config.selector.index < pre.num_selectors,
            s.index < pre.num_selectors,
            0 <= row < pre.n,
        ensures
            post.is_enabled(s, row) == (pre.is_enabled(s, row) || (s.index == self.config.selector.index && row
                == Self::next_row(pre))),
    {
        let n = pre.n as int;
        let r0 = Self::next_row(pre);
        crate::layout::lemma_index_in_grid(s.index as int, row, pre.num_selectors as int, n);
        crate::layout::lemma_index_in_grid(self.config.selector.index as int, r0, pre.num_selectors as int, n);
        if !(s.index == self.config.selector.index && row == r0) {
            crate::layout::lemma_index_distinct(s.index as int, row, self.config.selector.index as int, r0, n);
        }
    }
}

/// Term `i` of the Fibonacci sequence over the field with seeds `a`, `b`.
pub open spec fn fib(a: int, b: int, i: nat) -> int
    decreases i,
{
    if i == 0 {
        a
    } else if i == 1 {
        b
    } else {
        (fib(a, b, (i - 2) as nat) + fib(a, b, (i - 1) as nat)) % modulus()
    }
}

/// The number of table rows that compute the terms up to `n`: the first
/// row computes term 2, and each further row one more term.
pub open spec fn table_rows(n: usize) -> nat {
    if n <= 2 {
        1
    } else {
        (n - 1) as nat
    }
}

/// Cell `j` of table row `i`, the table starting at row `base`.
pub open spec fn table_cell(config: FibonacciConfig, base: int, i: int, j: int) -> CellRef {
    CellRef { column: config.advice@[j], row: (base + i) as usize }
}

/// The cell that row `k` of a table copies into its `a`: the seed `b` for
/// the second row, the `c` of two rows up after that.
pub open spec fn a_source(config: FibonacciConfig, base: int, k: int) -> CellRef {
    if k == 1 {
        table_cell(config, base, 0, 1)
    } else {
        table_cell(config, base, k - 2, 2)
    }
}

/// The copy constraints of a table of `rows` rows: each row's `a` comes
/// from `a_source`, its `b` from the previous row's `c`.
pub open spec fn table_copies(config: FibonacciConfig, base: int, rows: nat) -> Seq<(CellRef, CellRef)>
    decreases rows,
{
    if rows <= 1 {
        Seq::empty()
    } else {
        table_copies(config, base, (rows - 1) as nat).push(
            (a_source(config, base, rows - 1), table_cell(config, base, rows - 1, 0)),
        ).push((table_cell(config, base, rows - 2, 2), table_cell(config, base, rows - 1, 1)))
    }
}

/// `post` is `pre` with a Fibonacci table of `rows` rows, seeds `a` and `b`,
/// placed from the first free row of `pre`: row `i` holds terms `i`, `i + 1`
/// and `i + 2`, its selector is on, and consecutive rows are tied by copy
/// constraints. Nothing else changes. The values are stated when `known`:
/// without them the same cells, selectors and copies are laid out.
pub open spec fn table_placed(config: FibonacciConfig, pre: Assignment, post: Assignment, known: bool, a: int, b: int, rows: nat) -> bool {
    let base = FibonacciChip::next_row(pre);
    let adv = config.advice@;
    &&& post.n == pre.n
    &&& post.num_columns == pre.num_columns
    &&& post.num_selectors == pre.num_selectors
    &&& post.region_start == base + rows - 1
    &&& post.region_height == 1
    &&& forall|i: int, j: int|
        known && 0 <= i < rows && 0 <= j < 3 ==> (#[trigger] post.value_at(table_cell(config, base, i, j))) is Some
            && post.cell_val(table_cell(config, base, i, j)) == fib(a, b, (i + j) as nat)
    &&& forall|c: CellRef|
        pre.in_grid(c) && !(base <= c.row < base + rows && (c.column.index == adv[0].index
            || c.column.index == adv[1].index || c.column.index == adv[2].index)) ==> #[trigger] post.value_at(c)
            == pre.value_at(c)
    &&& forall|s: Selector, row: int|
        s.index < pre.num_selectors && 0 <= row < pre.n ==> #[trigger] post.is_enabled(s, row) == (pre.is_enabled(s, row)
            || (s.index == config.selector.index && base <= row < base + rows))
    &&& post.copies@ == pre.copies@ + table_copies(config, base, rows)
    &&& post.exposed@ == pre.exposed@
}

/// The Fibonacci circuit: seeds `a` and `b`, and the terms up to `n`.
#[derive(Clone, Copy, Debug)]
pub struct MyCircuit {
    pub a: Option<Fe>,
    pub b: Option<Fe>,
    pub n: usize,
}

impl MyCircuit {
    /// The same circuit with its witness values cleared.
    pub fn without_witnesses(&self) -> (r: MyCircuit)
        ensures
            r.a is None,
            r.b is None,
            r.n == self.n,
    {
        MyCircuit { a: None, b: None, n: self.n }
    }

    /// The shape that `configure` gives a system of shape `s`.
    pub open spec fn configured_shape(s: ShapeView) -> ShapeView {
        let k = s.columns.len();
        FibonacciChip::configured_shape(
            ShapeView {
                columns: s.columns.push(ColumnKind::Advice).push(ColumnKind::Advice).push(ColumnKind::Advice),
                equality: s.equality.push(false).push(false).push(false),
                ..s
            },
            [
                Column { index: k as usize, kind: ColumnKind::Advice },
                Column { index: (k + 1) as usize, kind: ColumnKind::Advice },
                Column { index: (k + 2) as usize, kind: ColumnKind::Advice },
            ],
        )
    }

    /// What `configure` does on `pre`, leaving `post` and returning `r`.
    pub open spec fn configure_spec(pre: ConstraintSystem, post: ConstraintSystem, r: Result<FibonacciConfig, ConfigError>) -> bool {
        let k = pre.columns@.len();
        &&& post.wf()
        &&& has_gate_named(pre.gates@, "add"@) ==> r == Err::<FibonacciConfig, ConfigError>(
            ConfigError::DuplicateGateName,
        )
        &&& !has_gate_named(pre.gates@, "add"@) ==> {
            &&& r == Ok::<FibonacciConfig, ConfigError>(
                FibonacciConfig {
                    advice: [
                        Column { index: k as usize, kind: ColumnKind::Advice },
                        Column { index: (k + 1) as usize, kind: ColumnKind::Advice },
                        Column { index: (k + 2) as usize, kind: ColumnKind::Advice },
                    ],
                    selector: Selector { index: pre.num_selectors },
                },
            )
            &&& post.shape() == Self::configured_shape(pre.shape())
            &&& r->Ok_0.valid(post)
        }
    }

    /// Declares three advice columns and configures the Fibonacci chip on them.
    pub fn configure(meta: &mut ConstraintSystem) -> (r: Result<FibonacciConfig, ConfigError>)
        requires
            old(meta).wf(),
            old(meta).columns@.len() + 3 <= usize::MAX,
            old(meta).num_selectors < usize::MAX,
        ensures
            Self::configure_spec(*old(meta), *final(meta), r),
    {
        let col_a = meta.add_advice_column();
        let col_b = meta.add_advice_column();
        let col_c = meta.add_advice_column();
        let ghost mid = *meta;
        let r = FibonacciChip::configure(meta, [col_a, col_b, col_c]);
        proof {
            let k = old(meta).columns@.len();
            let adv = [col_a, col_b, col_c];
            assert(adv@[0] == col_a && adv@[1] == col_b && adv@[2] == col_c);
            assert(mid.columns@ == old(meta).columns@.push(ColumnKind::Advice).push(ColumnKind::Advice).push(ColumnKind::Advice));
            assert(forall|i: int| 0 <= i < 3 ==> column_declared(mid.columns@, #[trigger] adv@[i]));
            if r is Ok {
                let cfg = r->Ok_0;
                assert(cfg.advice@ == adv@);
                assert(final(meta).columns@ == mid.columns@);
                assert(final(meta).equality@ == mid.equality@.update(k as int, true).update((k + 1) as int, true).update((k + 2) as int, true));
                assert(forall|i: int| 0 <= i < 3 ==> column_declared(final(meta).columns@, #[trigger] cfg.advice@[i])
                    && cfg.advice@[i].kind == ColumnKind::Advice && final(meta).equality@[cfg.advice@[i].index as int]);
            }
        }
        r
    }
    /// Places the Fibonacci table: the first row from the seeds, then one
    /// row per further term up to `n`, each copying the previous row.
    pub fn synthesize(&self, cs: &ConstraintSystem, config: FibonacciConfig, layouter: &mut Assignment) -> (r: Result<
        (),
        AssignmentError,
    >)
        requires
            old(layouter).fits(*cs),
            config.valid(*cs),
            value_wf(self.a),
            value_wf(self.b),
        ensures
            final(layouter).fits(*cs),
            ({
                &&& r is Ok <==> FibonacciChip::next_row(*old(layouter)) + table_rows(self.n) <= old(layouter).n
                &&& r is Err ==> r == Err::<(), AssignmentError>(AssignmentError::OutOfGrid(0))
                &&& r is Ok ==> table_placed(
                    config,
                    *old(layouter),
                    *final(layouter),
                    self.a is Some && self.b is Some,
                    self.a->Some_0.val(),
                    self.b->Some_0.val(),
                    table_rows(self.n),
                )
            }),
    {
        let a = self.a;
        let b = self.b;
        let ghost pre = *layouter;
        let ghost base = FibonacciChip::next_row(pre);
        let ghost known = a is Some && b is Some;
        let ghost av = a->Some_0.val();
        let ghost bv = b->Some_0.val();
        let chip = FibonacciChip::construct(config);
        let first = chip.assign_first_row(cs, layouter, a, b);
        let (_, mut prev_b, mut prev_c) = match first {
            Ok(t) => t,
            Err(e) => {
                return Err(e);
            },
        };
        proof {
            reveal_with_fuel(fib, 3);
            assert(forall|i: int| 0 <= i < 3 ==> column_declared(cs.columns@, #[trigger] config.advice@[i]));
            assert forall|i: int, j: int| known && 0 <= i < 1 && 0 <= j < 3 implies (#[trigger] layouter.value_at(
                table_cell(config, base, i, j),
            )) is Some && layouter.cell_val(table_cell(config, base, i, j)) == fib(av, bv, (i + j) as nat) by {
                chip.lemma_row_cells(pre, *layouter, a, b, prev_c.value, table_cell(config, base, i, j));
                reveal_with_fuel(fib, 3);
                assert(fib(av, bv, 2) == (av + bv) % modulus());
            }
            assert forall|c: CellRef|
                pre.in_grid(c) && !(base <= c.row < base + 1 && (c.column.index == config.advice@[0].index
                    || c.column.index == config.advice@[1].index || c.column.index == config.advice@[2].index))
                    implies #[trigger] layouter.value_at(c) == pre.value_at(c) by {
                chip.lemma_row_cells(pre, *layouter, a, b, prev_c.value, c);
            }
            assert forall|s: Selector, row: int| s.index < pre.num_selectors && 0 <= row < pre.n implies #[trigger] layouter.is_enabled(s, row)
                == (pre.is_enabled(s, row) || (s.index == config.selector.index && base <= row < base + 1)) by {
                chip.lemma_row_selectors(pre, *layouter, a, b, prev_c.value, s, row);
            }
            assert(layouter.copies@ =~= pre.copies@ + table_copies(config, base, 1));
        }
        let mut i: usize = 2;
        while i < self.n
            invariant
                layouter.fits(*cs),
                config.valid(*cs),
                chip.config == config,
                pre == *old(layouter),
                known == (self.a is Some && self.b is Some),
                av == self.a->Some_0.val(),
                bv == self.b->Some_0.val(),
                pre.fits(*cs),
                base == FibonacciChip::next_row(pre),
                2 <= i,
                i <= self.n || i == 2,
                base + i - 1 <= layouter.n,
                table_placed(config, pre, *layouter, known, av, bv, (i - 1) as nat),
                prev_b.cell == a_source(config, base, i - 1),
                prev_c.cell == table_cell(config, base, i - 2, 2),
                value_wf(prev_b.value),
                value_wf(prev_c.value),
                known ==> prev_b.value is Some && prev_b.value->Some_0.val() == fib(av, bv, (i - 1) as nat),
                known ==> prev_c.value is Some && prev_c.value->Some_0.val() == fib(av, bv, i as nat),
            decreases self.n - i,
        {
            let ghost before = *layouter;
            proof {
                assert(column_declared(cs.columns@, config.advice@[1]));
                assert(column_declared(cs.columns@, config.advice@[2]));
                assert(prev_b.cell.column == config.advice@[1] || prev_b.cell.column == config.advice@[2]);
                assert(cs.equality@[prev_b.cell.column.index as int]);
                assert(cs.equality@[prev_c.cell.column.index as int]);
            }
            let c = chip.assign_row(cs, layouter, &prev_b, &prev_c);
            let c = match c {
                Ok(c) => c,
                Err(e) => {
                    assert(FibonacciChip::next_row(before) == base + i - 1);
                    assert(table_rows(self.n) >= i);
                    return Err(e);
                },
            };
            proof {
                lemma_table_step(chip, pre, before, *layouter, known, av, bv, (i - 1) as nat, prev_b.value, prev_c.value, c.value);
            }
            prev_b = prev_c;
            prev_c = c;
            i = i + 1;
        }
        Ok(())
    }
}

/// Placing one more row, from the last row's `b` and `c`, extends a table
/// of `rows` rows to one of `rows + 1`.
pub proof fn lemma_table_step(
    chip: FibonacciChip,
    pre: Assignment,
    before: Assignment,
    after: Assignment,
    known: bool,
    a: int,
    b: int,
    rows: nat,
    vb: Option<Fe>,
    vc: Option<Fe>,
    vn: Option<Fe>,
)
    requires
        pre.wf(),
        before.wf(),
        rows >= 1,
        table_placed(chip.config, pre, before, known, a, b, rows),
        chip.row_placed(before, after, vb, vc, vn),
        after.copies@ == before.copies@.push(
            (a_source(chip.config, FibonacciChip::next_row(pre), rows as int), table_cell(chip.config, FibonacciChip::next_row(before), 0, 0)),
        ).push((table_cell(chip.config, FibonacciChip::next_row(pre), rows - 1, 2), table_cell(chip.config, FibonacciChip::next_row(before), 0, 1))),
        FibonacciChip::next_row(before) < before.n,
        chip.config.advice@[0].index < pre.num_columns,
        chip.config.advice@[1].index < pre.num_columns,
        chip.config.advice@[2].index < pre.num_columns,
        chip.config.advice@[0].index != chip.config.advice@[1].index,
        chip.config.advice@[0].index != chip.config.advice@[2].index,
        chip.config.advice@[1].index != chip.config.advice@[2].index,
        chip.config.selector.index < pre.num_selectors,
        known ==> vb is Some && vb->Some_0.val() == fib(a, b, rows),
        known ==> vc is Some && vc->Some_0.val() == fib(a, b, rows + 1),
        known ==> vn is Some && vn->Some_0.val() == (vb->Some_0.val() + vc->Some_0.val()) % modulus(),
    ensures
        table_placed(chip.config, pre, after, known, a, b, rows + 1),
{
    let config = chip.config;
    let base = FibonacciChip::next_row(pre);
    let r0 = FibonacciChip::next_row(before);
    assert(r0 == base + rows);
    assert forall|i: int, j: int| known && 0 <= i < rows + 1 && 0 <= j < 3 implies (#[trigger] after.value_at(
        table_cell(config, base, i, j),
    )) is Some && after.cell_val(table_cell(config, base, i, j)) == fib(a, b, (i + j) as nat) by {
        chip.lemma_row_cells(before, after, vb, vc, vn, table_cell(config, base, i, j));
        if i < rows {
            assert(before.value_at(table_cell(config, base, i, j)) is Some);
        }
        assert(fib(a, b, (rows + 2) as nat) == (fib(a, b, rows) + fib(a, b, (rows + 1) as nat)) % modulus());
    }
    assert forall|c: CellRef|
        pre.in_grid(c) && !(base <= c.row < base + rows + 1 && (c.column.index == config.advice@[0].index
            || c.column.index == config.advice@[1].index || c.column.index == config.advice@[2].index))
            implies #[trigger] after.value_at(c) == pre.value_at(c) by {
        chip.lemma_row_cells(before, after, vb, vc, vn, c);
        assert(before.value_at(c) == pre.value_at(c));
    }
    assert forall|s: Selector, row: int| s.index < pre.num_selectors && 0 <= row < pre.n implies #[trigger] after.is_enabled(s, row)
        == (pre.is_enabled(s, row) || (s.index == config.selector.index && base <= row < base + rows + 1)) by {
        chip.lemma_row_selectors(before, after, vb, vc, vn, s, row);
        assert(before.is_enabled(s, row) == (pre.is_enabled(s, row) || (s.index == config.selector.index && base <= row < base + rows)));
    }
    assert(table_cell(config, r0, 0, 0) == table_cell(config, base, rows as int, 0));
    assert(table_cell(config, r0, 0, 1) == table_cell(config, base, rows as int, 1));
    assert(after.copies@ =~= pre.copies@ + table_copies(config, base, rows + 1));
}

/// The configuration that `MyCircuit::configure` returns on an empty system.
pub open spec fn fresh_config() -> FibonacciConfig {
    FibonacciConfig {
        advice: [
            Column { index: 0, kind: ColumnKind::Advice },
            Column { index: 1, kind: ColumnKind::Advice },
            Column { index: 2, kind: ColumnKind::Advice },
        ],
        selector: Selector { index: 0 },
    }
}

/// Every table row satisfies the `add` gate.
pub proof fn lemma_table_rows_pass(cs: ConstraintSystem, lay: Assignment, a: int, b: int, rows: nat, r: nat)
    requires
        cs.gates@.len() == 1,
        cs.gates@[0].selector == fresh_config().selector,
        cs.gates@[0].polys@ == seq![add_poly(fresh_config().advice@[0], fresh_config().advice@[1], fresh_config().advice@[2])],
        lay.n > 0,
        r <= lay.n,
        forall|i: int, j: int|
            0 <= i < rows && 0 <= j < 3 ==> #[trigger] lay.cell_val(table_cell(fresh_config(), 0, i, j)) == fib(a, b, (i + j) as nat),
        forall|i: int, j: int|
            0 <= i < rows && 0 <= j < 3 ==> (#[trigger] lay.value_at(table_cell(fresh_config(), 0, i, j))) is Some,
        forall|row: int| 0 <= row < lay.n ==> #[trigger] lay.is_enabled(fresh_config().selector, row) ==> row < rows,
    ensures
        row_failures(cs, lay, 0, r) == Seq::<Failure>::empty(),
    decreases r,
{
    if r > 0 {
        lemma_table_rows_pass(cs, lay, a, b, rows, (r - 1) as nat);
        let row = r - 1;
        if lay.is_enabled(fresh_config().selector, row) {
            let cfg = fresh_config();
            vstd::arithmetic::div_mod::lemma_small_mod(row as nat, lay.n as nat);
            reveal_with_fuel(eval, 3);
            let x = lay.cell_val(table_cell(cfg, 0, row, 0));
            let y = lay.cell_val(table_cell(cfg, 0, row, 1));
            let z = lay.cell_val(table_cell(cfg, 0, row, 2));
            assert(z == (x + y) % modulus());
            assert(table_cell(cfg, 0, row, 0) == CellRef { column: cfg.advice@[0], row: ((row + 0) % (lay.n as int)) as usize });
            assert(table_cell(cfg, 0, row, 1) == CellRef { column: cfg.advice@[1], row: ((row + 0) % (lay.n as int)) as usize });
            assert(table_cell(cfg, 0, row, 2) == CellRef { column: cfg.advice@[2], row: ((row + 0) % (lay.n as int)) as usize });
            assert(eval(cs.gates@[0].polys@[0], lay, row) == ((x + y) % modulus() - z) % modulus());
            assert(((x + y) % modulus() - z) % modulus() == 0);
            reveal_with_fuel(expr_assigned, 3);
            assert(lay.value_at(table_cell(cfg, 0, row, 0)) is Some);
            assert(lay.value_at(table_cell(cfg, 0, row, 1)) is Some);
            assert(lay.value_at(table_cell(cfg, 0, row, 2)) is Some);
            assert(expr_assigned(cs.gates@[0].polys@[0], lay, row));
            reveal_with_fuel(poly_failures, 2);
            assert(poly_failures(cs, lay, 0, row, 1) =~= Seq::<Failure>::empty());
            assert(row_failures(cs, lay, 0, r) =~= Seq::<Failure>::empty());
        }
    }
}

/// Both cells of every copy constraint of a table hold the same value.
pub proof fn lemma_table_copies_equal(lay: Assignment, a: int, b: int, rows: nat, k: nat)
    requires
        k <= rows,
        forall|i: int, j: int|
            0 <= i < rows && 0 <= j < 3 ==> #[trigger] lay.cell_val(table_cell(fresh_config(), 0, i, j)) == fib(a, b, (i + j) as nat),
    ensures
        forall|t: int|
            0 <= t < table_copies(fresh_config(), 0, k).len() ==> lay.cell_val(
                (#[trigger] table_copies(fresh_config(), 0, k)[t]).0,
            ) == lay.cell_val(table_copies(fresh_config(), 0, k)[t].1),
    decreases k,
{
    if k > 1 {
        lemma_table_copies_equal(lay, a, b, rows, (k - 1) as nat);
        let cfg = fresh_config();
        let prev = table_copies(cfg, 0, (k - 1) as nat);
        let cur = table_copies(cfg, 0, k);
        assert(lay.cell_val(table_cell(cfg, 0, k - 1, 0)) == fib(a, b, (k - 1) as nat));
        assert(lay.cell_val(table_cell(cfg, 0, k - 1, 1)) == fib(a, b, k));
        assert(lay.cell_val(table_cell(cfg, 0, k - 2, 2)) == fib(a, b, k));
        if k == 2 {
            assert(lay.cell_val(table_cell(cfg, 0, 0, 1)) == fib(a, b, 1));
        } else {
            assert(lay.cell_val(table_cell(cfg, 0, k - 3, 2)) == fib(a, b, (k - 1) as nat));
        }
        assert forall|t: int| 0 <= t < cur.len() implies lay.cell_val((#[trigger] cur[t]).0) == lay.cell_val(cur[t].1) by {
            if t < prev.len() {
                assert(cur[t] == prev[t]);
            }
        }
    }
}

/// No copy constraint whose two cells agree is reported.
pub proof fn lemma_copies_pass(lay: Assignment, k: nat)
    requires
        k <= lay.copies@.len(),
        forall|t: int| 0 <= t < k ==> lay.cell_val((#[trigger] lay.copies@[t]).0) == lay.cell_val(lay.copies@[t].1),
    ensures
        copy_failures(lay, k) == Seq::<Failure>::empty(),
    decreases k,
{
    if k > 0 {
        lemma_copies_pass(lay, (k - 1) as nat);
    }
}

/// A Fibonacci table placed on an empty witness of a freshly configured
/// system satisfies every gate and copy constraint: the checker reports
/// nothing, whatever the public inputs.
pub proof fn lemma_table_satisfied(cs: ConstraintSystem, fresh: Assignment, lay: Assignment, a: int, b: int, rows: nat, public: Seq<Fe>)
    requires
        cs.wf(),
        cs.shape() == MyCircuit::configured_shape(ConstraintSystem::empty_shape()),
        fresh.wf(),
        fresh.region_start == 0,
        fresh.region_height == 0,
        forall|i: int| 0 <= i < fresh.enabled@.len() ==> !fresh.enabled@[i],
        fresh.copies@.len() == 0,
        fresh.exposed@.len() == 0,
        fresh.num_selectors == 1,
        fresh.num_columns == 3,
        table_placed(fresh_config(), fresh, lay, true, a, b, rows),
        rows <= lay.n,
    ensures
        failures(cs, lay, public) == Seq::<Failure>::empty(),
{
    let cfg = fresh_config();
    assert(cs.shape().gates.len() == 1);
    assert(cs.gates@.len() == 1);
    assert(cs.shape().gates[0] == crate::plonk::gate_view(cs.gates@[0]));
    assert(cs.gates@[0].polys@ == seq![add_poly(cfg.advice@[0], cfg.advice@[1], cfg.advice@[2])]);
    assert forall|i: int, j: int|
        0 <= i < rows && 0 <= j < 3 implies #[trigger] lay.cell_val(table_cell(cfg, 0, i, j)) == fib(a, b, (i + j) as nat) by {
        assert(lay.value_at(table_cell(cfg, 0, i, j)) is Some);
    }
    assert forall|row: int| 0 <= row < lay.n && #[trigger] lay.is_enabled(cfg.selector, row) implies row < rows by {
        crate::layout::lemma_index_in_grid(0, row, 1, fresh.n as int);
        assert(!fresh.is_enabled(cfg.selector, row));
    }
    lemma_table_rows_pass(cs, lay, a, b, rows, lay.n as nat);
    assert(gate_failures(cs, lay, 0) =~= Seq::<Failure>::empty());
    assert(gate_failures(cs, lay, 1) =~= Seq::<Failure>::empty());
    lemma_table_copies_equal(lay, a, b, rows, rows);
    assert(lay.copies@ =~= table_copies(cfg, 0, rows));
    lemma_copies_pass(lay, lay.copies@.len());
    assert(public_failures(lay, public, 0) =~= Seq::<Failure>::empty());
    assert(failures(cs, lay, public) =~= Seq::<Failure>::empty());
}

impl MyCircuit {
    /// Configures a fresh system, places the witness on a grid of `2^k` rows
    /// and checks it against `public`. With both seeds known and a grid large
    /// enough for the table, the checker reports nothing.
    pub fn run(&self, k: u32, public: &Vec<Fe>) -> (r: Result<Vec<Failure>, Error>)
        requires
            value_wf(self.a),
            value_wf(self.b),
            forall|i: int| 0 <= i < public@.len() ==> (#[trigger] public@[i]).wf(),
        ensures
            rows_for(k as nat) * 3 > usize::MAX ==> r == Err::<Vec<Failure>, Error>(
                Error::Assignment(AssignmentError::GridTooLarge),
            ),
            rows_for(k as nat) * 3 <= usize::MAX && table_rows(self.n) <= rows_for(k as nat) && (self.a is None
                || self.b is None) ==> r == Err::<Vec<Failure>, Error>(
                Error::Assignment(AssignmentError::MissingWitness),
            ),
            rows_for(k as nat) * 3 <= usize::MAX && table_rows(self.n) > rows_for(k as nat) ==> r == Err::<
                Vec<Failure>,
                Error,
            >(
                Error::Assignment(AssignmentError::OutOfGrid(0)),
            ),
            rows_for(k as nat) * 3 <= usize::MAX && self.a is Some && self.b is Some && table_rows(self.n)
                <= rows_for(k as nat) ==> r is Ok && r->Ok_0@.len() == 0,
    {
        let mut cs = ConstraintSystem::new();
        let config = match Self::configure(&mut cs) {
            Ok(c) => c,
            Err(e) => {
                return Err(Error::Config(e));
            },
        };
        proof {
            assert(cs.shape().columns.len() == 3);
            assert(cs.columns@.len() == 3);
            assert(cs.num_selectors == 1);
            assert(config == fresh_config());
            crate::layout::lemma_rows_for_grows(0, k as nat);
        }
        let mut lay = match Assignment::new(&cs, k) {
            Ok(a) => a,
            Err(e) => {
                return Err(Error::Assignment(e));
            },
        };
        let ghost fresh = lay;
        match self.synthesize(&cs, config, &mut lay) {
            Ok(()) => {},
            Err(e) => {
                return Err(Error::Assignment(e));
            },
        }
        if self.a.is_none() || self.b.is_none() {
            return Err(Error::Assignment(AssignmentError::MissingWitness));
        }
        let v = check(&cs, &lay, public);
        proof {
            lemma_table_satisfied(cs, fresh, lay, self.a->Some_0.val(), self.b->Some_0.val(), table_rows(self.n), public@);
        }
        Ok(v)
    }
}

/// Configuring the Fibonacci circuit on two empty constraint systems gives
/// the same configuration and the same columns, selectors and gates.
pub proof fn lemma_configure_idempotent(
    pre1: ConstraintSystem,
    post1: ConstraintSystem,
    r1: Result<FibonacciConfig, ConfigError>,
    pre2: ConstraintSystem,
    post2: ConstraintSystem,
    r2: Result<FibonacciConfig, ConfigError>,
)
    requires
        pre1.shape() == ConstraintSystem::empty_shape(),
        pre2.shape() == ConstraintSystem::empty_shape(),
        MyCircuit::configure_spec(pre1, post1, r1),
        MyCircuit::configure_spec(pre2, post2, r2),
    ensures
        r1 == r2,
        r1 is Ok,
        post1.shape() == post2.shape(),
{
    assert(pre1.shape().gates.len() == pre1.gates@.len());
    assert(pre2.shape().gates.len() == pre2.gates@.len());
    assert(!has_gate_named(pre1.gates@, "add"@));
    assert(!has_gate_named(pre2.gates@, "add"@));
}

proof fn lemma_nonzero_mod(d: int, m: int)
    requires
        0 < m,
        -m < d < m,
        d != 0,
    ensures
        d % m != 0,
{
    if d > 0 {
        vstd::arithmetic::div_mod::lemma_small_mod(d as nat, m as nat);
    } else {
        vstd::arithmetic::div_mod::lemma_mod_add_multiples_vanish(d, m);
        vstd::arithmetic::div_mod::lemma_small_mod((m + d) as nat, m as nat);
    }
}

proof fn lemma_sum_differs(u: int, w: int, y: int, m: int)
    requires
        0 < m,
        0 <= u < m,
        0 <= w < m,
        u != w,
    ensures
        (u + y) % m != (w + y) % m,
{
    vstd::arithmetic::div_mod::lemma_mod_equivalence(u + y, w + y, m);
    assert((u + y) - (w + y) == u - w);
    lemma_nonzero_mod(u - w, m);
}

/// `f` is among the violations reported for the first `r` rows once it is
/// among those of row `i < r`.
proof fn lemma_row_failure_kept(cs: ConstraintSystem, lay: Assignment, i: int, r: nat, f: Failure)
    requires
        0 <= i < r,
        lay.is_enabled(cs.gates@[0].selector, i),
        poly_failures(cs, lay, 0, i, cs.gates@[0].polys@.len()).contains(f),
    ensures
        row_failures(cs, lay, 0, r).contains(f),
    decreases r,
{
    let prev = row_failures(cs, lay, 0, (r - 1) as nat);
    if i == r - 1 {
        let pf = poly_failures(cs, lay, 0, i, cs.gates@[0].polys@.len());
        let k = choose|k: int| 0 <= k < pf.len() && pf[k] == f;
        assert((prev + pf)[prev.len() + k] == f);
    } else {
        lemma_row_failure_kept(cs, lay, i, (r - 1) as nat, f);
        let k = choose|k: int| 0 <= k < prev.len() && prev[k] == f;
        if lay.is_enabled(cs.gates@[0].selector, r - 1) {
            let pf = poly_failures(cs, lay, 0, r - 1, cs.gates@[0].polys@.len());
            assert((prev + pf)[k] == f);
        }
    }
}

/// Changing the value of any one cell of a Fibonacci table placed on a
/// fresh witness makes the checker report the `add` gate at that cell's row.
pub proof fn lemma_mutation_detected(
    cs: ConstraintSystem,
    fresh: Assignment,
    lay: Assignment,
    bad: Assignment,
    a: int,
    b: int,
    rows: nat,
    i: int,
    j: int,
    v: Fe,
    public: Seq<Fe>,
)
    requires
        cs.wf(),
        cs.shape() == MyCircuit::configured_shape(ConstraintSystem::empty_shape()),
        fresh.wf(),
        fresh.region_start == 0,
        fresh.region_height == 0,
        forall|t: int| 0 <= t < fresh.enabled@.len() ==> !fresh.enabled@[t],
        fresh.num_selectors == 1,
        fresh.num_columns == 3,
        lay.wf(),
        table_placed(fresh_config(), fresh, lay, true, a, b, rows),
        rows <= lay.n,
        0 <= i < rows,
        0 <= j < 3,
        v.wf(),
        v.val() != lay.cell_val(table_cell(fresh_config(), 0, i, j)),
        bad.n == lay.n,
        bad.num_columns == lay.num_columns,
        bad.enabled@ == lay.enabled@,
        bad.cells@ == lay.cells@.update(lay.index(table_cell(fresh_config(), 0, i, j)), Some(v)),
    ensures
        exists|value: Fe|
            #[trigger] failures(cs, bad, public).contains(
                (Failure::GateViolation { gate: 0, poly: 0, row: i as usize, value }),
            ),
{
    let cfg = fresh_config();
    let n = lay.n as int;
    let p = modulus();
    assert(cs.shape().gates.len() == 1);
    assert(cs.shape().gates[0] == crate::plonk::gate_view(cs.gates@[0]));
    assert(cs.gates@[0].polys@ == seq![add_poly(cfg.advice@[0], cfg.advice@[1], cfg.advice@[2])]);
    let cell = |t: int| table_cell(cfg, 0, i, t);
    crate::layout::lemma_index_in_grid(j, i, 3, n);
    assert forall|t: int| 0 <= t < 3 implies bad.cell_val(#[trigger] cell(t)) == if t == j {
        v.val()
    } else {
        lay.cell_val(cell(t))
    } by {
        crate::layout::lemma_index_in_grid(t, i, 3, n);
        if t != j {
            crate::layout::lemma_index_distinct(t, i, j, i, n);
        }
    }
    let x = lay.cell_val(cell(0));
    let y = lay.cell_val(cell(1));
    let z = lay.cell_val(cell(2));
    assert(lay.value_at(cell(0)) is Some);
    assert(lay.value_at(cell(1)) is Some);
    assert(lay.value_at(cell(2)) is Some);
    crate::layout::lemma_index_in_grid(0, i, 3, n);
    crate::layout::lemma_index_in_grid(1, i, 3, n);
    crate::layout::lemma_index_in_grid(2, i, 3, n);
    assert(0 <= x < p && 0 <= y < p && 0 <= z < p) by {
        crate::field::lemma_le_value_nonneg(lay.value_at(cell(0))->Some_0.repr@);
        crate::field::lemma_le_value_nonneg(lay.value_at(cell(1))->Some_0.repr@);
        crate::field::lemma_le_value_nonneg(lay.value_at(cell(2))->Some_0.repr@);
    }
    assert(z == (x + y) % p);
    crate::field::lemma_le_value_nonneg(v.repr@);
    let x2 = bad.cell_val(cell(0));
    let y2 = bad.cell_val(cell(1));
    let z2 = bad.cell_val(cell(2));
    vstd::arithmetic::div_mod::lemma_mod_pos_bound(x2 + y2, p);
    if j == 0 {
        lemma_sum_differs(v.val(), x, y, p);
    } else if j == 1 {
        assert(x + v.val() == v.val() + x && x + y == y + x);
        lemma_sum_differs(v.val(), y, x, p);
    }
    assert((x2 + y2) % p != z2);
    lemma_nonzero_mod((x2 + y2) % p - z2, p);
    vstd::arithmetic::div_mod::lemma_small_mod(i as nat, n as nat);
    reveal_with_fuel(eval, 3);
    assert(cell(0) == CellRef { column: cfg.advice@[0], row: ((i + 0) % n) as usize });
    assert(cell(1) == CellRef { column: cfg.advice@[1], row: ((i + 0) % n) as usize });
    assert(cell(2) == CellRef { column: cfg.advice@[2], row: ((i + 0) % n) as usize });
    assert(eval(cs.gates@[0].polys@[0], bad, i) == ((x2 + y2) % p - z2) % p);
    let fv = crate::field::fe_of(eval(cs.gates@[0].polys@[0], bad, i));
    let f = Failure::GateViolation { gate: 0, poly: 0, row: i as usize, value: fv };
    reveal_with_fuel(expr_assigned, 3);
    assert forall|t: int| 0 <= t < 3 implies (#[trigger] bad.value_at(cell(t))) is Some by {
        crate::layout::lemma_index_in_grid(t, i, 3, n);
        if t != j {
            crate::layout::lemma_index_distinct(t, i, j, i, n);
        }
    }
    assert(bad.value_at(cell(0)) is Some && bad.value_at(cell(1)) is Some && bad.value_at(cell(2)) is Some);
    assert(expr_assigned(cs.gates@[0].polys@[0], bad, i));
    reveal_with_fuel(poly_failures, 2);
    assert(poly_failures(cs, bad, 0, i, 1) =~= seq![f]);
    assert(poly_failures(cs, bad, 0, i, 1)[0] == f);
    crate::layout::lemma_index_in_grid(0, i, 1, n);
    assert(lay.is_enabled(cfg.selector, i));
    assert(bad.is_enabled(cs.gates@[0].selector, i));
    lemma_row_failure_kept(cs, bad, i, bad.n as nat, f);
    let rf = row_failures(cs, bad, 0, bad.n as nat);
    let k = choose|k: int| 0 <= k < rf.len() && rf[k] == f;
    assert(gate_failures(cs, bad, 0) =~= Seq::<Failure>::empty());
    assert(gate_failures(cs, bad, 1) =~= rf);
    let all = failures(cs, bad, public);
    assert(all[k] == f);
    assert(all.contains(f));
}

} // verus!
