use vstd::prelude::*;
use crate::field::{fe_of, modulus, Fe};
use crate::layout::{Assignment, AssignmentError, CellRef};
use crate::plonk::{expr_columns_declared, expr_consts_wf, Column, ConfigError, ConstraintSystem, Expr};

verus! {

/// Why a circuit could not be built.
#[derive(Clone, Copy, Debug, PartialEq, Eq, Structural)]
pub enum Error {
    Config(ConfigError),
    Assignment(AssignmentError),
}

/// One defect that the checker found.
#[derive(Clone, Copy, Debug, PartialEq, Eq)]
pub enum Failure {
    /// Polynomial `poly` of gate `gate` does not vanish at `row`: it
    /// evaluates to `value`.
    GateViolation { gate: usize, poly: usize, row: usize, value: Fe },
    /// Polynomial `poly` of gate `gate` reads, at `row`, a cell that holds
    /// no value.
    UnassignedCell { gate: usize, poly: usize, row: usize },
    /// The two cells of a copy constraint hold different values.
    CopyConstraintViolation { left: CellRef, right: CellRef },
    /// The cell tied to public input `position` differs from it, or there is
    /// no public input at that position.
    PublicInputMismatch { position: usize, cell: CellRef },
}

/// The value of `e` at `row`, with the cell values of `a`.
pub open spec fn eval(e: Expr, a: Assignment, row: int) -> int
    decreases e,
{
    match e {
        Expr::Constant(c) => c.val(),
        Expr::Query(col, rot) => a.cell_val(CellRef { column: col, row: ((row + rot) % (a.n as int)) as usize }),
        Expr::Sum(l, r) => (eval(*l, a, row) + eval(*r, a, row)) % modulus(),
        Expr::Difference(l, r) => (eval(*l, a, row) - eval(*r, a, row)) % modulus(),
        Expr::Product(l, r) => (eval(*l, a, row) * eval(*r, a, row)) % modulus(),
    }
}

/// Every cell that `e` reads at `row` holds a value.
pub open spec fn expr_assigned(e: Expr, a: Assignment, row: int) -> bool
    decreases e,
{
    match e {
        Expr::Constant(_) => true,
        Expr::Query(col, rot) => a.value_at(CellRef { column: col, row: ((row + rot) % (a.n as int)) as usize }) is Some,
        Expr::Sum(l, r) => expr_assigned(*l, a, row) && expr_assigned(*r, a, row),
        Expr::Difference(l, r) => expr_assigned(*l, a, row) && expr_assigned(*r, a, row),
        Expr::Product(l, r) => expr_assigned(*l, a, row) && expr_assigned(*r, a, row),
    }
}

/// Violations of the first `j` polynomials of gate `g` at `row`.
pub open spec fn poly_failures(cs: ConstraintSystem, a: Assignment, g: int, row: int, j: nat) -> Seq<Failure>
    decreases j,
{
    if j == 0 {
        Seq::empty()
    } else {
        let prev = poly_failures(cs, a, g, row, (j - 1) as nat);
        if !expr_assigned(cs.gates@[g].polys@[j - 1], a, row) {
            prev.push(Failure::UnassignedCell { gate: g as usize, poly: (j - 1) as usize, row: row as usize })
        } else if eval(cs.gates@[g].polys@[j - 1], a, row) != 0 {
            prev.push(
                Failure::GateViolation {
                    gate: g as usize,
                    poly: (j - 1) as usize,
                    row: row as usize,
                    value: fe_of(eval(cs.gates@[g].polys@[j - 1], a, row)),
                },
            )
        } else {
            prev
        }
    }
}

/// Violations of gate `g` on the first `r` rows.
pub open spec fn row_failures(cs: ConstraintSystem, a: Assignment, g: int, r: nat) -> Seq<Failure>
    decreases r,
{
    if r == 0 {
        Seq::empty()
    } else {
        let prev = row_failures(cs, a, g, (r - 1) as nat);
        if a.is_enabled(cs.gates@[g].selector, r - 1) {
            prev + poly_failures(cs, a, g, r - 1, cs.gates@[g].polys@.len())
        } else {
            prev
        }
    }
}

/// Violations of the first `g` gates.
pub open spec fn gate_failures(cs: ConstraintSystem, a: Assignment, g: nat) -> Seq<Failure>
    decreases g,
{
    if g == 0 {
        Seq::empty()
    } else {
        gate_failures(cs, a, (g - 1) as nat) + row_failures(cs, a, g - 1, a.n as nat)
    }
}

/// Violations of the first `k` copy constraints.
pub open spec fn copy_failures(a: Assignment, k: nat) -> Seq<Failure>
    decreases k,
{
    if k == 0 {
        Seq::empty()
    } else {
        let prev = copy_failures(a, (k - 1) as nat);
        let (l, r) = a.copies@[k - 1];
        if a.cell_val(l) != a.cell_val(r) {
            prev.push(Failure::CopyConstraintViolation { left: l, right: r })
        } else {
            prev
        }
    }
}

/// Mismatches of the first `k` public-input ties against `public`.
pub open spec fn public_failures(a: Assignment, public: Seq<Fe>, k: nat) -> Seq<Failure>
    decreases k,
{
    if k == 0 {
        Seq::empty()
    } else {
        let prev = public_failures(a, public, (k - 1) as nat);
        let (c, p) = a.exposed@[k - 1];
        if p >= public.len() || a.cell_val(c) != public[p as int].val() {
            prev.push(Failure::PublicInputMismatch { position: p, cell: c })
        } else {
            prev
        }
    }
}

/// Every violation of the witness `a` of `cs` with the public inputs
/// `public`: gates by gate, row and polynomial, then copy constraints and
/// public inputs, each in the order they were recorded.
pub open spec fn failures(cs: ConstraintSystem, a: Assignment, public: Seq<Fe>) -> Seq<Failure> {
    gate_failures(cs, a, cs.gates@.len())
        + copy_failures(a, a.copies@.len())
        + public_failures(a, public, a.exposed@.len())
}

/// The value that `a` gives cell `c`, zero when unassigned.
fn read_cell(a: &Assignment, c: CellRef) -> (r: Fe)
    requires
        a.wf(),
        a.in_grid(c),
    ensures
        r.wf(),
        r.val() == a.cell_val(c),
{
    let total = a.cells.len();
    proof {
        crate::layout::lemma_index_in_grid(c.column.index as int, c.row as int, a.num_columns as int, a.n as int);
    }
    match a.cells[c.column.index * a.n + c.row] {
        Some(v) => v,
        None => Fe::zero(),
    }
}

/// The cell that a query of `col` at offset `rot` reads at `row`.
fn query_cell(a: &Assignment, col: Column, rot: usize, row: usize) -> (r: CellRef)
    requires
        a.wf(),
        row < a.n,
    ensures
        r == (CellRef { column: col, row: ((row + rot) % (a.n as int)) as usize }),
        r.row < a.n,
{
    let shift = rot % a.n;
    let at: usize = if shift >= a.n - row {
        shift - (a.n - row)
    } else {
        row + shift
    };
    proof {
        let n = a.n as int;
        let x = row as int + shift as int;
        vstd::arithmetic::div_mod::lemma_small_mod(row as nat, n as nat);
        vstd::arithmetic::div_mod::lemma_add_mod_noop(row as int, rot as int, n);
        vstd::arithmetic::div_mod::lemma_mod_twice(rot as int, n);
        vstd::arithmetic::div_mod::lemma_add_mod_noop(row as int, shift as int, n);
        if x < n {
            vstd::arithmetic::div_mod::lemma_small_mod(x as nat, n as nat);
        } else {
            vstd::arithmetic::div_mod::lemma_mod_add_multiples_vanish(x - n, n);
            vstd::arithmetic::div_mod::lemma_small_mod((x - n) as nat, n as nat);
        }
    }
    CellRef { column: col, row: at }
}

/// Whether every cell that `e` reads at `row` holds a value.
pub fn is_assigned(cs: &ConstraintSystem, a: &Assignment, e: &Expr, row: usize) -> (r: bool)
    requires
        a.fits(*cs),
        expr_columns_declared(*e, cs.columns@),
        row < a.n,
    ensures
        r == expr_assigned(*e, *a, row as int),
    decreases e,
{
    match e {
        Expr::Constant(_) => true,
        Expr::Query(col, rot) => {
            let c = query_cell(a, *col, *rot, row);
            let total = a.cells.len();
            proof {
                crate::layout::lemma_index_in_grid(c.column.index as int, c.row as int, a.num_columns as int, a.n as int);
            }
            a.cells[c.column.index * a.n + c.row].is_some()
        },
        Expr::Sum(l, r) => is_assigned(cs, a, l, row) && is_assigned(cs, a, r, row),
        Expr::Difference(l, r) => is_assigned(cs, a, l, row) && is_assigned(cs, a, r, row),
        Expr::Product(l, r) => is_assigned(cs, a, l, row) && is_assigned(cs, a, r, row),
    }
}

/// Evaluates `e` at `row`.
pub fn evaluate(cs: &ConstraintSystem, a: &Assignment, e: &Expr, row: usize) -> (r: Fe)
    requires
        a.fits(*cs),
        expr_consts_wf(*e),
        expr_columns_declared(*e, cs.columns@),
        row < a.n,
    ensures
        r.wf(),
        r.val() == eval(*e, *a, row as int),
    decreases e,
{
    match e {
        Expr::Constant(c) => *c,
        Expr::Query(col, rot) => {
            let shift = *rot % a.n;
            let at: usize = if shift >= a.n - row {
                shift - (a.n - row)
            } else {
                row + shift
            };
            proof {
                let n = a.n as int;
                let x = row as int + shift as int;
                vstd::arithmetic::div_mod::lemma_small_mod(row as nat, n as nat);
                vstd::arithmetic::div_mod::lemma_add_mod_noop(row as int, *rot as int, n);
                vstd::arithmetic::div_mod::lemma_mod_twice(*rot as int, n);
                vstd::arithmetic::div_mod::lemma_add_mod_noop(row as int, shift as int, n);
                if x < n {
                    vstd::arithmetic::div_mod::lemma_small_mod(x as nat, n as nat);
                } else {
                    vstd::arithmetic::div_mod::lemma_mod_add_multiples_vanish(x - n, n);
                    vstd::arithmetic::div_mod::lemma_small_mod((x - n) as nat, n as nat);
                }
            }
            read_cell(a, CellRef { column: *col, row: at })
        },
        Expr::Sum(l, r) => {
            let x = evaluate(cs, a, l, row);
            let y = evaluate(cs, a, r, row);
            x.add(&y)
        },
        Expr::Difference(l, r) => {
            let x = evaluate(cs, a, l, row);
            let y = evaluate(cs, a, r, row);
            x.sub(&y)
        },
        Expr::Product(l, r) => {
            let x = evaluate(cs, a, l, row);
            let y = evaluate(cs, a, r, row);
            x.mul(&y)
        },
    }
}

/// Appends the violations of gate `g` at `row`.
fn check_gate_row(cs: &ConstraintSystem, a: &Assignment, g: usize, row: usize, out: &mut Vec<Failure>)
    requires
        a.fits(*cs),
        g < cs.gates@.len(),
        row < a.n,
    ensures
        final(out)@ == old(out)@ + (if a.is_enabled(cs.gates@[g as int].selector, row as int) {
            poly_failures(*cs, *a, g as int, row as int, cs.gates@[g as int].polys@.len())
        } else {
            Seq::empty()
        }),
{
    let gate = &cs.gates[g];
    assert(crate::plonk::gate_wf(cs.gates@[g as int], cs.columns@, cs.num_selectors as nat));
    let total = a.enabled.len();
    proof {
        crate::layout::lemma_index_in_grid(gate.selector.index as int, row as int, a.num_selectors as int, a.n as int);
    }
    if !a.enabled[gate.selector.index * a.n + row] {
        assert(old(out)@ + Seq::<Failure>::empty() =~= old(out)@);
        return;
    }
    let ghost start = out@;
    let mut j: usize = 0;
    while j < gate.polys.len()
        invariant
            a.fits(*cs),
            *gate == cs.gates@[g as int],
            row < a.n,
            j <= gate.polys@.len(),
            crate::plonk::gate_wf(*gate, cs.columns@, cs.num_selectors as nat),
            out@ == start + poly_failures(*cs, *a, g as int, row as int, j as nat),
        decreases gate.polys@.len() - j,
    {
        if !is_assigned(cs, a, &gate.polys[j], row) {
            out.push(Failure::UnassignedCell { gate: g, poly: j, row });
            proof {
                let f = Failure::UnassignedCell { gate: g, poly: j, row };
                assert((start + poly_failures(*cs, *a, g as int, row as int, j as nat)).push(f) =~= start
                    + poly_failures(*cs, *a, g as int, row as int, j as nat).push(f));
            }
        } else {
            let v = evaluate(cs, a, &gate.polys[j], row);
            if !v.is_zero() {
                out.push(Failure::GateViolation { gate: g, poly: j, row, value: v });
            }
            proof {
                crate::field::lemma_fe_of(v);
                let f = Failure::GateViolation { gate: g, poly: j, row, value: v };
                assert((start + poly_failures(*cs, *a, g as int, row as int, j as nat)).push(f) =~= start
                    + poly_failures(*cs, *a, g as int, row as int, j as nat).push(f));
            }
        }
        j = j + 1;
    }
}

/// Every violation of the witness `a` of `cs` with the public inputs `public`.
/// An empty result means the witness satisfies the circuit.
pub fn check(cs: &ConstraintSystem, a: &Assignment, public: &Vec<Fe>) -> (r: Vec<Failure>)
    requires
        a.fits(*cs),
        forall|i: int| 0 <= i < public@.len() ==> (#[trigger] public@[i]).wf(),
    ensures
        r@ == failures(*cs, *a, public@),
{
    let mut out: Vec<Failure> = Vec::new();
    let mut g: usize = 0;
    while g < cs.gates.len()
        invariant
            a.fits(*cs),
            g <= cs.gates@.len(),
            out@ == gate_failures(*cs, *a, g as nat),
        decreases cs.gates@.len() - g,
    {
        let mut row: usize = 0;
        while row < a.n
            invariant
                a.fits(*cs),
                g < cs.gates@.len(),
                row <= a.n,
                out@ == gate_failures(*cs, *a, g as nat) + row_failures(*cs, *a, g as int, row as nat),
            decreases a.n - row,
        {
            let ghost before = out@;
            check_gate_row(cs, a, g, row, &mut out);
            proof {
                let pf = poly_failures(*cs, *a, g as int, row as int, cs.gates@[g as int].polys@.len());
                let gf = gate_failures(*cs, *a, g as nat);
                let rf = row_failures(*cs, *a, g as int, row as nat);
                if a.is_enabled(cs.gates@[g as int].selector, row as int) {
                    assert(gf + rf + pf =~= gf + (rf + pf));
                } else {
                    assert(gf + rf + Seq::<Failure>::empty() =~= gf + rf);
                }
            }
            row = row + 1;
        }
        g = g + 1;
    }
    let ghost gates_part = out@;
    let mut k: usize = 0;
    while k < a.copies.len()
        invariant
            a.fits(*cs),
            k <= a.copies@.len(),
            out@ == gates_part + copy_failures(*a, k as nat),
        decreases a.copies@.len() - k,
    {
        let (l, r) = a.copies[k];
        let x = read_cell(a, l);
        let y = read_cell(a, r);
        if !x.equals(&y) {
            out.push(Failure::CopyConstraintViolation { left: l, right: r });
        }
        proof {
            let f = Failure::CopyConstraintViolation { left: l, right: r };
            assert((gates_part + copy_failures(*a, k as nat)).push(f) =~= gates_part + copy_failures(*a, k as nat).push(f));
        }
        k = k + 1;
    }
    let ghost copies_part = out@;
    let mut k: usize = 0;
    while k < a.exposed.len()
        invariant
            a.fits(*cs),
            forall|i: int| 0 <= i < public@.len() ==> (#[trigger] public@[i]).wf(),
            k <= a.exposed@.len(),
            out@ == copies_part + public_failures(*a, public@, k as nat),
        decreases a.exposed@.len() - k,
    {
        let (c, p) = a.exposed[k];
        let bad = if p >= public.len() {
            true
        } else {
            let x = read_cell(a, c);
            !x.equals(&public[p])
        };
        if bad {
            out.push(Failure::PublicInputMismatch { position: p, cell: c });
        }
        proof {
            let f = Failure::PublicInputMismatch { position: p, cell: c };
            assert((copies_part + public_failures(*a, public@, k as nat)).push(f) =~= copies_part
                + public_failures(*a, public@, k as nat).push(f));
        }
        k = k + 1;
    }
    out
}

/// Polynomials that vanish at `row` are not reported.
pub proof fn lemma_polys_pass(cs: ConstraintSystem, a: Assignment, g: int, row: int, j: nat)
    requires
        j <= cs.gates@[g].polys@.len(),
        forall|t: int| 0 <= t < j ==> #[trigger] eval(cs.gates@[g].polys@[t], a, row) == 0 && expr_assigned(cs.gates@[g].polys@[t], a, row),
    ensures
        poly_failures(cs, a, g, row, j) == Seq::<Failure>::empty(),
    decreases j,
{
    if j > 0 {
        lemma_polys_pass(cs, a, g, row, (j - 1) as nat);
        assert(eval(cs.gates@[g].polys@[j - 1], a, row) == 0);
    }
}

/// A gate whose polynomials vanish on every row where its selector is on
/// is not reported.
pub proof fn lemma_rows_pass(cs: ConstraintSystem, a: Assignment, g: int, r: nat)
    requires
        forall|row: int, t: int|
            0 <= row < r && a.is_enabled(cs.gates@[g].selector, row) && 0 <= t < cs.gates@[g].polys@.len()
                ==> #[trigger] eval(cs.gates@[g].polys@[t], a, row) == 0 && expr_assigned(cs.gates@[g].polys@[t], a, row),
    ensures
        row_failures(cs, a, g, r) == Seq::<Failure>::empty(),
    decreases r,
{
    if r > 0 {
        lemma_rows_pass(cs, a, g, (r - 1) as nat);
        if a.is_enabled(cs.gates@[g].selector, r - 1) {
            lemma_polys_pass(cs, a, g, r - 1, cs.gates@[g].polys@.len());
            assert(row_failures(cs, a, g, r) =~= Seq::<Failure>::empty());
        }
    }
}

} // verus!
