use vstd::prelude::*;
use crate::field::{modulus, value_mul, Fe};
use crate::layout::value_wf;
use crate::layout::{rows_for, AssignedCell, Assignment, AssignmentError, CellRef};
use crate::prover::{expr_assigned, check, copy_failures, eval, failures, gate_failures, public_failures, row_failures, Error, Failure};
use crate::plonk::{
    kind_error, column_declared, has_gate_named, Column, ColumnKind, ConfigError, ConstraintSystem, Expr, GateView,
    Selector, ShapeView,
};

verus! {

/// An error that carries a message.
#[derive(Clone, Debug)]
pub struct MyError {
    pub msg: String,
}

/// `Ok` when `res` holds, else an error whose message is `info`.
pub fn test_error(info: &str, res: bool) -> (r: Result<(), MyError>)
    ensures
        res ==> r is Ok,
        !res ==> r is Err && r->Err_0.msg@ == info@,
{
    if res {
        Ok(())
    } else {
        Err(MyError { msg: info.to_owned() })
    }
}

/// The columns and selector of the multiplication chip.
#[derive(Clone, Copy, Debug)]
pub struct FieldConfig {
    pub advice: [Column; 2],
    pub instance: Column,
    pub s_mul: Selector,
}

/// The polynomial of the `mul` gate: `lhs * rhs - out`, where `out` is the
/// first advice column on the next row.
pub open spec fn mul_poly(a0: Column, a1: Column) -> Expr {
    Expr::Difference(
        Box::new(Expr::Product(Box::new(Expr::Query(a0, 0)), Box::new(Expr::Query(a1, 0)))),
        Box::new(Expr::Query(a0, 1)),
    )
}

impl FieldConfig {
    /// Two distinct advice columns and an instance column, all with copy
    /// constraints, a selector, and a column for constants, of `cs`.
    pub open spec fn valid(self, cs: ConstraintSystem) -> bool {
        &&& forall|i: int|
            0 <= i < 2 ==> column_declared(cs.columns@, #[trigger] self.advice@[i])
                && self.advice@[i].kind == ColumnKind::Advice && cs.equality@[self.advice@[i].index as int]
        &&& self.advice@[0].index != self.advice@[1].index
        &&& column_declared(cs.columns@, self.instance)
        &&& self.instance.kind == ColumnKind::Instance
        &&& cs.equality@[self.instance.index as int]
        &&& self.s_mul.index < cs.num_selectors
        &&& cs.constants@.len() > 0
    }
}

/// A number held in a cell of the circuit.
#[derive(Clone, Copy, Debug)]
pub struct Number(pub AssignedCell);

/// Loads numbers into the circuit, multiplies them and exposes results.
pub struct FieldChip {
    pub config: FieldConfig,
}

impl FieldChip {
    pub fn construct(config: FieldConfig) -> (r: FieldChip)
        ensures
            r.config == config,
    {
        FieldChip { config }
    }

    pub fn config(&self) -> (r: &FieldConfig)
        ensures
            *r == self.config,
    {
        &self.config
    }

    /// The chip loads nothing ahead of time.
    pub fn loaded(&self) -> (r: ()) {
        ()
    }

    /// The shape that `configure` gives a system of shape `s`.
    pub open spec fn configured_shape(s: ShapeView, advice: [Column; 2], instance: Column, constant: Column) -> ShapeView {
        ShapeView {
            num_selectors: s.num_selectors + 1,
            equality: s.equality.update(instance.index as int, true).update(constant.index as int, true).update(
                advice@[0].index as int,
                true,
            ).update(advice@[1].index as int, true),
            constants: s.constants.push(constant),
            gates: s.gates.push(
                GateView {
                    name: "mul"@,
                    selector: Selector { index: s.num_selectors as usize },
                    polys: seq![mul_poly(advice@[0], advice@[1])],
                },
            ),
            ..s
        }
    }

    /// Enables copy constraints on the instance and advice columns, sets the
    /// fixed column aside for constants, and declares `mul`, which asks
    /// `lhs * rhs = out` on each selected row.
    pub fn configure(meta: &mut ConstraintSystem, advice: [Column; 2], instance: Column, constant: Column) -> (r: Result<
        FieldConfig,
        ConfigError,
    >)
        requires
            old(meta).wf(),
            old(meta).num_selectors < usize::MAX,
        ensures
            final(meta).wf(),
            r is Err ==> *final(meta) == *old(meta),
            ({
                let cols = old(meta).columns@;
                let e_inst = kind_error(cols, instance, ColumnKind::Instance);
                let e_const = kind_error(cols, constant, ColumnKind::Fixed);
                let e_a0 = kind_error(cols, advice@[0], ColumnKind::Advice);
                let e_a1 = kind_error(cols, advice@[1], ColumnKind::Advice);
                if e_inst is Some {
                    r == Err::<FieldConfig, ConfigError>(e_inst->Some_0)
                } else if e_const is Some {
                    r == Err::<FieldConfig, ConfigError>(e_const->Some_0)
                } else if e_a0 is Some {
                    r == Err::<FieldConfig, ConfigError>(e_a0->Some_0)
                } else if e_a1 is Some {
                    r == Err::<FieldConfig, ConfigError>(e_a1->Some_0)
                } else if advice@[0].index == advice@[1].index {
                    r == Err::<FieldConfig, ConfigError>(ConfigError::RepeatedColumn(advice@[1]))
                } else if has_gate_named(old(meta).gates@, "mul"@) {
                    r == Err::<FieldConfig, ConfigError>(ConfigError::DuplicateGateName)
                } else {
                    &&& r == Ok::<FieldConfig, ConfigError>(
                        FieldConfig { advice, instance, s_mul: Selector { index: old(meta).num_selectors } },
                    )
                    &&& final(meta).shape() == Self::configured_shape(old(meta).shape(), advice, instance, constant)
                    &&& r->Ok_0.valid(*final(meta))
                }
            }),
    {
        let a0 = advice[0];
        let a1 = advice[1];
        if let Err(e) = meta.check_kind(instance, ColumnKind::Instance) {
            return Err(e);
        }
        if let Err(e) = meta.check_kind(constant, ColumnKind::Fixed) {
            return Err(e);
        }
        if let Err(e) = meta.check_kind(a0, ColumnKind::Advice) {
            return Err(e);
        }
        if let Err(e) = meta.check_kind(a1, ColumnKind::Advice) {
            return Err(e);
        }
        if a0.index == a1.index {
            return Err(ConfigError::RepeatedColumn(a1));
        }
        if meta.has_gate(&"mul".to_owned()) {
            proof {
                reveal_strlit("mul");
            }
            return Err(ConfigError::DuplicateGateName);
        }
        proof {
            reveal_strlit("mul");
        }
        if let Err(e) = meta.enable_equality(instance) {
            return Err(e);
        }
        if let Err(e) = meta.enable_constant(constant) {
            return Err(e);
        }
        if let Err(e) = meta.enable_equality(a0) {
            return Err(e);
        }
        if let Err(e) = meta.enable_equality(a1) {
            return Err(e);
        }
        let s_mul = meta.add_selector();
        let poly = Expr::Difference(
            Box::new(Expr::Product(Box::new(Expr::Query(a0, 0)), Box::new(Expr::Query(a1, 0)))),
            Box::new(Expr::Query(a0, 1)),
        );
        let polys = vec![poly];
        let name = "mul".to_owned();
        proof {
            reveal_strlit("mul");
            reveal_with_fuel(crate::plonk::expr_consts_wf, 4);
            assert(crate::plonk::expr_consts_wf(polys@[0]));
            reveal_with_fuel(crate::plonk::expr_columns_declared, 4);
            assert(crate::plonk::expr_columns_declared(polys@[0], meta.columns@));
            assert(meta.columns@ == old(meta).columns@);
            assert(polys@ =~= seq![mul_poly(a0, a1)]);
        }
        if let Err(e) = meta.create_gate(name, s_mul, polys) {
            return Err(e);
        }
        proof {
            let cfg = FieldConfig { advice, instance, s_mul };
            assert(final(meta).columns@ == old(meta).columns@);
            assert(cfg.advice@[0] == a0 && cfg.advice@[1] == a1);
            assert(final(meta).constants@.len() > 0);
            assert(forall|i: int| 0 <= i < 2 ==> column_declared(final(meta).columns@, #[trigger] cfg.advice@[i])
                && cfg.advice@[i].kind == ColumnKind::Advice && final(meta).equality@[cfg.advice@[i].index as int]);
        }
        Ok(FieldConfig { advice, instance, s_mul })
    }
    /// The first free row of `lay`: where the next region starts.
    pub open spec fn next_row(lay: Assignment) -> int {
        lay.region_start + lay.region_height
    }

    /// `post` is `pre` with one more region of `height` rows at `next_row(pre)`,
    /// whose cells are those of `pre` updated by `cells` in order, and
    /// nothing else changed but what the caller states.
    pub open spec fn region_placed(pre: Assignment, post: Assignment, cells: Seq<(CellRef, Option<Fe>)>, height: int) -> bool {
        &&& post.n == pre.n
        &&& post.num_columns == pre.num_columns
        &&& post.num_selectors == pre.num_selectors
        &&& post.region_start == Self::next_row(pre)
        &&& post.region_height == height
        &&& post.cells@ == cells.fold_left(pre.cells@, |acc: Seq<Option<Fe>>, cv: (CellRef, Option<Fe>)| acc.update(pre.index(cv.0), cv.1))
        &&& post.exposed@ == pre.exposed@
    }

    /// Opens the region `load private` and places `value`, known or not, in
    /// the first advice column.
    pub fn load_private(&self, cs: &ConstraintSystem, layouter: &mut Assignment, value: Option<Fe>) -> (r: Result<Number, AssignmentError>)
        requires
            old(layouter).fits(*cs),
            self.config.valid(*cs),
            value_wf(value),
        ensures
            final(layouter).fits(*cs),
            ({
                let cell = CellRef { column: self.config.advice@[0], row: Self::next_row(*old(layouter)) as usize };
                &&& r is Ok <==> Self::next_row(*old(layouter)) < old(layouter).n
                &&& r is Err ==> r == Err::<Number, AssignmentError>(AssignmentError::OutOfGrid(0))
                &&& r is Ok ==> {
                    &&& r->Ok_0 == Number(AssignedCell { cell, value })
                    &&& Self::region_placed(*old(layouter), *final(layouter), seq![(cell, value)], 1)
                    &&& Assignment::region_opened(*old(layouter), *final(layouter), "load private"@)
                    &&& final(layouter).enabled@ == old(layouter).enabled@
                    &&& final(layouter).copies@ == old(layouter).copies@
                }
            }),
    {
        let ghost before_region = *layouter;
        let region_name = "load private".to_owned();
        let ghost name_kept = region_name;
        layouter.begin_region(region_name);
        proof {
            Assignment::lemma_region_opened(before_region, *layouter, name_kept);
        }
        proof {
            assert(column_declared(cs.columns@, self.config.advice@[0]));
        }
        match layouter.assign_advice(cs, self.config.advice[0], 0, value) {
            Ok(c) => {
                proof {
                    reveal_with_fuel(Seq::fold_left, 2);
                }
                Ok(Number(c))
            },
            Err(e) => Err(e),
        }
    }

    /// Opens the region `load constant`, places `constant` in the first
    /// advice column and, on the same row, in the constant column, tied to
    /// it by a copy constraint.
    pub fn load_constant(&self, cs: &ConstraintSystem, layouter: &mut Assignment, constant: Fe) -> (r: Result<Number, AssignmentError>)
        requires
            old(layouter).fits(*cs),
            self.config.valid(*cs),
            constant.wf(),
        ensures
            final(layouter).fits(*cs),
            ({
                let r0 = Self::next_row(*old(layouter));
                let cell = CellRef { column: self.config.advice@[0], row: r0 as usize };
                let ccell = CellRef { column: cs.constants@[0], row: r0 as usize };
                &&& r is Ok <==> r0 < old(layouter).n
                &&& r is Err ==> r == Err::<Number, AssignmentError>(AssignmentError::OutOfGrid(0))
                &&& r is Ok ==> {
                    &&& r->Ok_0 == Number(AssignedCell { cell, value: Some(constant) })
                    &&& Self::region_placed(*old(layouter), *final(layouter), seq![(cell, Some(constant)), (ccell, Some(constant))], 1)
                    &&& Assignment::region_opened(*old(layouter), *final(layouter), "load constant"@)
                    &&& final(layouter).enabled@ == old(layouter).enabled@
                    &&& final(layouter).copies@ == old(layouter).copies@.push((cell, ccell))
                }
            }),
    {
        let ghost before_region = *layouter;
        let region_name = "load constant".to_owned();
        let ghost name_kept = region_name;
        layouter.begin_region(region_name);
        proof {
            Assignment::lemma_region_opened(before_region, *layouter, name_kept);
        }
        let ghost fresh = *layouter;
        proof {
            let r0 = fresh.region_start;
            let ccol = cs.constants@[0];
            assert(column_declared(cs.columns@, self.config.advice@[0]));
            assert(column_declared(cs.columns@, ccol));
            if r0 < fresh.n {
                assert(fresh.value_at(CellRef { column: ccol, row: r0 }) is None);
                assert(fresh.value_at(CellRef { column: self.config.advice@[0], row: r0 }) is None);
            }
        }
        let r = layouter.assign_advice_from_constant(cs, self.config.advice[0], 0, constant);
        match r {
            Ok(c) => {
                proof {
                    reveal_with_fuel(Seq::fold_left, 3);
                }
                Ok(Number(c))
            },
            Err(e) => Err(e),
        }
    }

    /// Ties the cell of `num` to the public input at `row`.
    pub fn expose_public(&self, cs: &ConstraintSystem, layouter: &mut Assignment, num: Number, row: usize) -> (r: Result<(), AssignmentError>)
        requires
            old(layouter).fits(*cs),
            self.config.valid(*cs),
            old(layouter).in_grid(num.0.cell),
        ensures
            final(layouter).fits(*cs),
            !cs.equality@[num.0.cell.column.index as int] ==> r == Err::<(), AssignmentError>(
                AssignmentError::EqualityNotEnabled(num.0.cell.column),
            ),
            r is Ok <==> cs.equality@[num.0.cell.column.index as int],
            r is Err ==> *final(layouter) == *old(layouter),
            r is Ok ==> {
                &&& final(layouter).exposed@ == old(layouter).exposed@.push((num.0.cell, row))
                &&& final(layouter).same_frame(*old(layouter))
                &&& final(layouter).region_height == old(layouter).region_height
                &&& final(layouter).cells@ == old(layouter).cells@
                &&& final(layouter).enabled@ == old(layouter).enabled@
                &&& final(layouter).copies@ == old(layouter).copies@
            },
    {
        layouter.constrain_instance(cs, num.0.cell, self.config.instance, row)
    }
    /// Opens the region `mul`: copies `a` and `b` into the first row, places
    /// their product below `a`, and switches the `mul` gate on.
    pub fn mul(&self, cs: &ConstraintSystem, layouter: &mut Assignment, a: Number, b: Number) -> (r: Result<Number, AssignmentError>)
        requires
            old(layouter).fits(*cs),
            self.config.valid(*cs),
            old(layouter).in_grid(a.0.cell),
            old(layouter).in_grid(b.0.cell),
            value_wf(a.0.value),
            value_wf(b.0.value),
        ensures
            final(layouter).fits(*cs),
            ({
                let r0 = Self::next_row(*old(layouter));
                let n = old(layouter).n;
                let eq_a = cs.equality@[a.0.cell.column.index as int];
                let eq_b = cs.equality@[b.0.cell.column.index as int];
                let lhs = CellRef { column: self.config.advice@[0], row: r0 as usize };
                let rhs = CellRef { column: self.config.advice@[1], row: r0 as usize };
                let out = CellRef { column: self.config.advice@[0], row: (r0 + 1) as usize };
                &&& r0 >= n ==> r == Err::<Number, AssignmentError>(AssignmentError::OutOfGrid(0))
                &&& r0 < n && !eq_a ==> r == Err::<Number, AssignmentError>(
                    AssignmentError::EqualityNotEnabled(a.0.cell.column),
                )
                &&& r0 < n && eq_a && !eq_b ==> r == Err::<Number, AssignmentError>(
                    AssignmentError::EqualityNotEnabled(b.0.cell.column),
                )
                &&& r0 + 1 == n && eq_a && eq_b ==> r == Err::<Number, AssignmentError>(AssignmentError::OutOfGrid(1))
                &&& r is Ok <==> r0 + 1 < n && eq_a && eq_b
                &&& r is Ok ==> {
                    let p = r->Ok_0.0.value;
                    &&& r->Ok_0.0.cell == out
                    &&& value_wf(p)
                    &&& p is Some <==> a.0.value is Some && b.0.value is Some
                    &&& p matches Some(z) ==> z.val() == (a.0.value->Some_0.val() * b.0.value->Some_0.val()) % modulus()
                    &&& Self::region_placed(
                        *old(layouter),
                        *final(layouter),
                        seq![(lhs, a.0.value), (rhs, b.0.value), (out, p)],
                        2,
                    )
                    &&& Assignment::region_opened(*old(layouter), *final(layouter), "mul"@)
                    &&& final(layouter).enabled@ == old(layouter).enabled@.update(
                        self.config.s_mul.index * n + r0,
                        true,
                    )
                    &&& final(layouter).copies@ == old(layouter).copies@.push((a.0.cell, lhs)).push(
                        (b.0.cell, rhs),
                    )
                }
            }),
    {
        let ghost pre = *layouter;
        let ghost before_region = *layouter;
        let region_name = "mul".to_owned();
        let ghost name_kept = region_name;
        layouter.begin_region(region_name);
        proof {
            Assignment::lemma_region_opened(before_region, *layouter, name_kept);
        }
        let ghost r0 = layouter.region_start;
        let ghost fresh = *layouter;
        let config = self.config;
        assert(config.s_mul.index < layouter.num_selectors);
        if let Err(e) = layouter.enable_selector(config.s_mul, 0) {
            return Err(e);
        }
        let ghost after_sel = *layouter;
        let ghost n = pre.n as int;
        let ghost c0 = CellRef { column: config.advice@[0], row: r0 };
        let ghost c1 = CellRef { column: config.advice@[1], row: r0 };
        proof {
            assert(column_declared(cs.columns@, config.advice@[0]));
            assert(column_declared(cs.columns@, config.advice@[1]));
            crate::layout::lemma_index_in_grid(config.advice@[0].index as int, r0 as int, pre.num_columns as int, n);
            crate::layout::lemma_index_in_grid(config.advice@[1].index as int, r0 as int, pre.num_columns as int, n);
            crate::layout::lemma_index_distinct(config.advice@[0].index as int, r0 as int, config.advice@[1].index as int, r0 as int, n);
            assert(fresh.value_at(c0) is None);
            assert(fresh.value_at(c1) is None);
        }
        let ra = match layouter.copy_advice(cs, &a.0, config.advice[0], 0) {
            Ok(c) => c,
            Err(e) => {
                return Err(e);
            },
        };
        let ghost after_a = *layouter;
        proof {
            let m = choose|m: Assignment|
                #[trigger] after_sel.assign_spec(*cs, config.advice@[0], ColumnKind::Advice, 0, a.0.value, Ok::<AssignedCell, AssignmentError>(ra), m)
                && (Ok::<AssignedCell, AssignmentError>(ra) is Ok ==> after_a.copies@ == m.copies@.push((a.0.cell, ra.cell))
                    && after_a.same_frame(m) && after_a.cells@ == m.cells@ && after_a.region_height == m.region_height
                    && after_a.enabled@ == m.enabled@ && after_a.exposed@ == m.exposed@)
                && (Ok::<AssignedCell, AssignmentError>(ra) is Err ==> after_a == m);
            assert(after_a.cells@ == after_sel.cells@.update(after_sel.index(c0), a.0.value));
            assert(after_a.value_at(c1) is None);
        }
        let rb = match layouter.copy_advice(cs, &b.0, config.advice[1], 0) {
            Ok(c) => c,
            Err(e) => {
                return Err(e);
            },
        };
        let ghost after_b = *layouter;
        proof {
            let m = choose|m: Assignment|
                #[trigger] after_a.assign_spec(*cs, config.advice@[1], ColumnKind::Advice, 0, b.0.value, Ok::<AssignedCell, AssignmentError>(rb), m)
                && (Ok::<AssignedCell, AssignmentError>(rb) is Ok ==> after_b.copies@ == m.copies@.push((b.0.cell, rb.cell))
                    && after_b.same_frame(m) && after_b.cells@ == m.cells@ && after_b.region_height == m.region_height
                    && after_b.enabled@ == m.enabled@ && after_b.exposed@ == m.exposed@)
                && (Ok::<AssignedCell, AssignmentError>(rb) is Err ==> after_b == m);
            assert(after_b.cells@ == after_a.cells@.update(after_a.index(c1), b.0.value));
            if r0 + 1 < n {
                let c2 = CellRef { column: config.advice@[0], row: (r0 + 1) as usize };
                crate::layout::lemma_index_in_grid(config.advice@[0].index as int, r0 + 1, pre.num_columns as int, n);
                crate::layout::lemma_index_distinct(config.advice@[0].index as int, r0 + 1, config.advice@[0].index as int, r0 as int, n);
                crate::layout::lemma_index_distinct(config.advice@[0].index as int, r0 + 1, config.advice@[1].index as int, r0 as int, n);
                assert(fresh.value_at(c2) is None);
                assert(after_b.value_at(c2) is None);
            }
        }
        let value = value_mul(&a.0.value, &b.0.value);
        let out = match layouter.assign_advice(cs, config.advice[0], 1, value) {
            Ok(c) => c,
            Err(e) => {
                return Err(e);
            },
        };
        proof {
            reveal_with_fuel(Seq::fold_left, 4);
        }
        Ok(Number(out))
    }
}

/// The circuit that proves knowledge of two private numbers whose product
/// is the public input at position 0.
#[derive(Clone, Copy, Debug)]
pub struct MulCircuit {
    pub x: Option<Fe>,
    pub y: Option<Fe>,
}

/// The configuration that `MulCircuit::configure` returns on an empty system.
pub open spec fn mul_config() -> FieldConfig {
    FieldConfig {
        advice: [Column { index: 0, kind: ColumnKind::Advice }, Column { index: 1, kind: ColumnKind::Advice }],
        instance: Column { index: 2, kind: ColumnKind::Instance },
        s_mul: Selector { index: 0 },
    }
}

/// The cell that holds the product, in the layout of `MulCircuit::run`.
pub open spec fn product_cell() -> CellRef {
    CellRef { column: Column { index: 0, kind: ColumnKind::Advice }, row: 3 }
}

/// What the checker reports for the product `xy` against `public`: nothing
/// when the first public input is `xy`, else one mismatch at position 0.
pub open spec fn mul_report(xy: int, public: Seq<Fe>) -> Seq<Failure> {
    if public.len() > 0 && public[0].val() == xy {
        Seq::empty()
    } else {
        seq![Failure::PublicInputMismatch { position: 0, cell: product_cell() }]
    }
}

impl MulCircuit {
    /// The same circuit with its witness values cleared.
    pub fn without_witnesses(&self) -> (r: MulCircuit)
        ensures
            r.x is None,
            r.y is None,
    {
        MulCircuit { x: None, y: None }
    }

    /// Declares two advice columns, an instance column and a fixed column
    /// for constants, and configures the multiplication chip on them.
    pub fn configure(meta: &mut ConstraintSystem) -> (r: Result<FieldConfig, ConfigError>)
        requires
            old(meta).wf(),
            old(meta).columns@.len() + 4 <= usize::MAX,
            old(meta).num_selectors < usize::MAX,
        ensures
            final(meta).wf(),
            old(meta).shape() == ConstraintSystem::empty_shape() ==> r == Ok::<FieldConfig, ConfigError>(mul_config())
                && r->Ok_0.valid(*final(meta)) && final(meta).gates@.len() == 1 && final(meta).gates@[0].selector
                == mul_config().s_mul && final(meta).gates@[0].polys@ == seq![
                mul_poly(mul_config().advice@[0], mul_config().advice@[1]),
            ] && final(meta).columns@.len() == 4 && final(meta).num_selectors == 1,
            has_gate_named(old(meta).gates@, "mul"@) ==> r == Err::<FieldConfig, ConfigError>(
                ConfigError::DuplicateGateName,
            ),
            !has_gate_named(old(meta).gates@, "mul"@) ==> {
                let k = old(meta).columns@.len();
                let s = old(meta).shape();
                let advice = [
                    Column { index: k as usize, kind: ColumnKind::Advice },
                    Column { index: (k + 1) as usize, kind: ColumnKind::Advice },
                ];
                let instance = Column { index: (k + 2) as usize, kind: ColumnKind::Instance };
                let constant = Column { index: (k + 3) as usize, kind: ColumnKind::Fixed };
                &&& r == Ok::<FieldConfig, ConfigError>(
                    FieldConfig { advice, instance, s_mul: Selector { index: old(meta).num_selectors } },
                )
                &&& final(meta).shape() == FieldChip::configured_shape(
                    ShapeView {
                        columns: s.columns.push(ColumnKind::Advice).push(ColumnKind::Advice).push(
                            ColumnKind::Instance,
                        ).push(ColumnKind::Fixed),
                        equality: s.equality.push(false).push(false).push(false).push(false),
                        ..s
                    },
                    advice,
                    instance,
                    constant,
                )
            },
    {
        let a0 = meta.add_advice_column();
        let a1 = meta.add_advice_column();
        let instance = meta.add_instance_column();
        let constant = meta.add_fixed_column();
        let ghost mid = *meta;
        let advice = [a0, a1];
        proof {
            assert(advice@[0] == a0 && advice@[1] == a1);
        }
        let r = FieldChip::configure(meta, advice, instance, constant);
        proof {
            assert(mid.columns@ == old(meta).columns@.push(ColumnKind::Advice).push(ColumnKind::Advice).push(
                ColumnKind::Instance,
            ).push(ColumnKind::Fixed));
            assert(advice@ =~= [
                Column { index: old(meta).columns@.len() as usize, kind: ColumnKind::Advice },
                Column { index: (old(meta).columns@.len() + 1) as usize, kind: ColumnKind::Advice },
            ]@);
            if old(meta).shape() == ConstraintSystem::empty_shape() {
                let cfg = r->Ok_0;
                assert(old(meta).shape().gates.len() == old(meta).gates@.len());
                assert(old(meta).gates@.len() == 0);
                assert(!has_gate_named(old(meta).gates@, "mul"@));
                assert(cfg.advice@ =~= mul_config().advice@);
                assert(final(meta).shape().gates.len() == 1);
                assert(final(meta).shape().gates[0] == crate::plonk::gate_view(final(meta).gates@[0]));
                assert(final(meta).shape().constants.len() == 1);
                assert(forall|i: int| 0 <= i < 2 ==> column_declared(final(meta).columns@, #[trigger] cfg.advice@[i])
                    && cfg.advice@[i].kind == ColumnKind::Advice && final(meta).equality@[cfg.advice@[i].index as int]);
            }
        }
        r
    }

    /// Configures a fresh system, loads `x` and `y`, multiplies them,
    /// exposes the product as public input 0, and checks the witness against
    /// `public` on a grid of `2^k` rows.
    pub fn run(&self, k: u32, public: &Vec<Fe>) -> (r: Result<Vec<Failure>, Error>)
        requires
            value_wf(self.x),
            value_wf(self.y),
            forall|i: int| 0 <= i < public@.len() ==> (#[trigger] public@[i]).wf(),
        ensures
            rows_for(k as nat) * 4 > usize::MAX ==> r == Err::<Vec<Failure>, Error>(
                Error::Assignment(AssignmentError::GridTooLarge),
            ),
            rows_for(k as nat) * 4 <= usize::MAX && rows_for(k as nat) >= 4 && (self.x is None || self.y is None)
                ==> r == Err::<Vec<Failure>, Error>(Error::Assignment(AssignmentError::MissingWitness)),
            rows_for(k as nat) * 4 <= usize::MAX && rows_for(k as nat) < 4
                ==> r == Err::<Vec<Failure>, Error>(Error::Assignment(AssignmentError::OutOfGrid(0))),
            rows_for(k as nat) * 4 <= usize::MAX && self.x is Some && self.y is Some && rows_for(k as nat) >= 4
                ==> r is Ok && r->Ok_0@ == mul_report(
                (self.x->Some_0.val() * self.y->Some_0.val()) % modulus(),
                public@,
            ),
    {
        let mut cs = ConstraintSystem::new();
        let config = match Self::configure(&mut cs) {
            Ok(c) => c,
            Err(e) => {
                return Err(Error::Config(e));
            },
        };
        proof {
            crate::layout::lemma_rows_for_grows(0, k as nat);
        }
        let mut lay = match Assignment::new(&cs, k) {
            Ok(a) => a,
            Err(e) => {
                return Err(Error::Assignment(e));
            },
        };
        let ghost fresh = lay;
        let chip = FieldChip::construct(config);
        let x = match chip.load_private(&cs, &mut lay, self.x) {
            Ok(v) => v,
            Err(e) => {
                return Err(Error::Assignment(e));
            },
        };
        let ghost after_x = lay;
        let y = match chip.load_private(&cs, &mut lay, self.y) {
            Ok(v) => v,
            Err(e) => {
                return Err(Error::Assignment(e));
            },
        };
        let ghost after_y = lay;
        let z = match chip.mul(&cs, &mut lay, x, y) {
            Ok(v) => v,
            Err(e) => {
                return Err(Error::Assignment(e));
            },
        };
        let ghost after_mul = lay;
        proof {
            assert(config.s_mul.index * lay.n == 0) by (nonlinear_arith)
                requires
                    config.s_mul.index == 0,
            ;
        }
        match chip.expose_public(&cs, &mut lay, z, 0) {
            Ok(()) => {},
            Err(e) => {
                return Err(Error::Assignment(e));
            },
        }
        if self.x.is_none() || self.y.is_none() {
            return Err(Error::Assignment(AssignmentError::MissingWitness));
        }
        let v = check(&cs, &lay, public);
        proof {
            lemma_mul_report(cs, fresh, after_x, after_y, after_mul, lay, x, y, z, public@);
        }
        Ok(v)
    }
}

/// The witness that `MulCircuit::run` places is reported exactly as
/// `mul_report` says.
pub proof fn lemma_mul_report(
    cs: ConstraintSystem,
    fresh: Assignment,
    after_x: Assignment,
    after_y: Assignment,
    after_mul: Assignment,
    lay: Assignment,
    x: Number,
    y: Number,
    z: Number,
    public: Seq<Fe>,
)
    requires
        lay.fits(cs),
        fresh.fits(cs),
        cs.columns@.len() == 4,
        cs.gates@.len() == 1,
        cs.gates@[0].selector == mul_config().s_mul,
        cs.gates@[0].polys@ == seq![mul_poly(mul_config().advice@[0], mul_config().advice@[1])],
        fresh.n >= 4,
        fresh.region_start == 0,
        fresh.region_height == 0,
        fresh.num_selectors == 1,
        forall|i: int| 0 <= i < fresh.cells@.len() ==> fresh.cells@[i] is None,
        forall|i: int| 0 <= i < fresh.enabled@.len() ==> !fresh.enabled@[i],
        fresh.copies@.len() == 0,
        fresh.exposed@.len() == 0,
        x.0.cell == (CellRef { column: mul_config().advice@[0], row: 0 }),
        FieldChip::region_placed(fresh, after_x, seq![(x.0.cell, x.0.value)], 1),
        after_x.enabled@ == fresh.enabled@,
        after_x.copies@ == fresh.copies@,
        y.0.cell == (CellRef { column: mul_config().advice@[0], row: 1 }),
        FieldChip::region_placed(after_x, after_y, seq![(y.0.cell, y.0.value)], 1),
        after_y.enabled@ == after_x.enabled@,
        after_y.copies@ == after_x.copies@,
        z.0.cell == product_cell(),
        x.0.value is Some,
        y.0.value is Some,
        z.0.value is Some,
        z.0.value->Some_0.val() == (x.0.value->Some_0.val() * y.0.value->Some_0.val()) % modulus(),
        FieldChip::region_placed(
            after_y,
            after_mul,
            seq![
                (CellRef { column: mul_config().advice@[0], row: 2 }, x.0.value),
                (CellRef { column: mul_config().advice@[1], row: 2 }, y.0.value),
                (product_cell(), z.0.value),
            ],
            2,
        ),
        after_mul.enabled@ == after_y.enabled@.update(2, true),
        after_mul.copies@ == after_y.copies@.push(
            (x.0.cell, CellRef { column: mul_config().advice@[0], row: 2 }),
        ).push((y.0.cell, CellRef { column: mul_config().advice@[1], row: 2 })),
        lay.exposed@ == after_mul.exposed@.push((z.0.cell, 0)),
        lay.n == after_mul.n,
        lay.cells@ == after_mul.cells@,
        lay.enabled@ == after_mul.enabled@,
        lay.copies@ == after_mul.copies@,
    ensures
        failures(cs, lay, public) == mul_report((x.0.value->Some_0.val() * y.0.value->Some_0.val()) % modulus(), public),
{
    reveal_with_fuel(Seq::fold_left, 4);
    let n = fresh.n as int;
    let cfg = mul_config();
    let xv = x.0.value->Some_0;
    let yv = y.0.value->Some_0;
    assert(lay.n == n && after_y.n == n && after_mul.n == n);
    assert(1 * n == n) by (nonlinear_arith);
    assert(0 * n == 0) by (nonlinear_arith);
    assert(lay.cells@.len() == 4 * n);
    assert(4 * n > n + 2) by (nonlinear_arith)
        requires
            n >= 4,
    ;
    let zv = z.0.value->Some_0;
    assert(after_x.cells@ == fresh.cells@.update(0, Some(xv)));
    assert(fresh.cells@.len() == 4 * n);
    assert(after_x.cells@.len() == 4 * n);
    assert(after_y.cells@.len() == 4 * n);
    assert(fresh.enabled@.len() == n);
    assert(after_x.cells@[0] == Some(xv));
    assert(after_y.cells@[0] == Some(xv));
    assert(after_y.cells@[1] == Some(yv));
    assert(after_y.cells@ == after_x.cells@.update(1, Some(yv)));
    assert(after_mul.cells@ == after_y.cells@.update(2, Some(xv)).update(n + 2, Some(yv)).update(3, Some(zv)));
    let a0 = |r: int| CellRef { column: cfg.advice@[0], row: r as usize };
    let a1 = |r: int| CellRef { column: cfg.advice@[1], row: r as usize };
    assert(lay.index(a0(0)) == 0);
    assert(lay.index(a0(1)) == 1);
    assert(lay.index(a0(2)) == 2);
    assert(lay.index(a0(3)) == 3);
    assert(lay.index(a1(2)) == n + 2);
    assert(lay.cell_val(a0(0)) == xv.val());
    assert(lay.cell_val(a0(1)) == yv.val());
    assert(lay.cell_val(a0(2)) == xv.val());
    assert(lay.cell_val(a1(2)) == yv.val());
    assert(lay.cell_val(a0(3)) == zv.val());
    assert forall|row: int, t: int|
        0 <= row < lay.n && lay.is_enabled(cs.gates@[0].selector, row) && 0 <= t < cs.gates@[0].polys@.len()
            implies #[trigger] eval(cs.gates@[0].polys@[t], lay, row) == 0 && expr_assigned(cs.gates@[0].polys@[t], lay, row) by {
        assert(lay.enabled@ == fresh.enabled@.update(2, true));
        if row != 2 {
            assert(!fresh.enabled@[row]);
        }
        assert(row == 2);
        assert(t == 0);
        reveal_with_fuel(eval, 3);
        reveal_with_fuel(expr_assigned, 3);
        vstd::arithmetic::div_mod::lemma_small_mod(2, n as nat);
        vstd::arithmetic::div_mod::lemma_small_mod(3, n as nat);
        assert(a0(2) == CellRef { column: cfg.advice@[0], row: ((2int + 0int) % n) as usize });
        assert(a1(2) == CellRef { column: cfg.advice@[1], row: ((2int + 0int) % n) as usize });
        assert(a0(3) == CellRef { column: cfg.advice@[0], row: ((2int + 1int) % n) as usize });
    }
    lemma_rows_pass_mul(cs, lay);
    assert(gate_failures(cs, lay, 0) =~= Seq::<Failure>::empty());
    assert(gate_failures(cs, lay, 1) =~= Seq::<Failure>::empty());
    assert(lay.copies@ =~= seq![(a0(0), a0(2)), (a0(1), a1(2))]);
    reveal_with_fuel(copy_failures, 3);
    assert(copy_failures(lay, 2) =~= Seq::<Failure>::empty());
    assert(lay.exposed@ =~= seq![(product_cell(), 0usize)]);
    reveal_with_fuel(public_failures, 2);
    assert(public_failures(lay, public, 1) =~= mul_report((xv.val() * yv.val()) % modulus(), public));
    assert(failures(cs, lay, public) =~= mul_report((xv.val() * yv.val()) % modulus(), public));
}

proof fn lemma_rows_pass_mul(cs: ConstraintSystem, lay: Assignment)
    requires
        cs.gates@.len() == 1,
        forall|row: int, t: int|
            0 <= row < lay.n && lay.is_enabled(cs.gates@[0].selector, row) && 0 <= t < cs.gates@[0].polys@.len()
                ==> #[trigger] eval(cs.gates@[0].polys@[t], lay, row) == 0 && expr_assigned(cs.gates@[0].polys@[t], lay, row),
    ensures
        row_failures(cs, lay, 0, lay.n as nat) == Seq::<Failure>::empty(),
{
    crate::prover::lemma_rows_pass(cs, lay, 0, lay.n as nat);
}

} // verus!
