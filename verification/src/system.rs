//! The constraint-system core: column and gate registries, the region-based
//! layouter that turns chip-relative placements into absolute cell
//! assignments, and the satisfiability checker that evaluates every gate and
//! copy constraint against a fully assigned witness.

use vstd::prelude::*;
use vstd::arithmetic::power2::{lemma_pow2_strictly_increases, lemma_pow2_unfold, pow2};
use crate::field::FieldElement;

verus! {

broadcast use vstd::std_specs::vec::axiom_spec_len;

/// The two kinds of data column: advice columns hold private witness values,
/// instance columns hold public values.
#[derive(Clone, Copy, PartialEq, Eq, Structural, Debug)]
pub enum ColumnKind {
    Advice,
    Instance,
}

/// A private-witness column, identified by its index in the registry.
#[derive(Clone, Copy, PartialEq, Eq, Structural, Debug)]
pub struct AdviceColumn {
    pub index: usize,
}

/// A public-input column, identified by its index in the registry.
#[derive(Clone, Copy, PartialEq, Eq, Structural, Debug)]
pub struct InstanceColumn {
    pub index: usize,
}

/// A boolean indicator bound to rows; a gate is enforced only on rows where
/// its selector is active.
#[derive(Clone, Copy, PartialEq, Eq, Structural, Debug)]
pub struct Selector {
    pub index: usize,
}

/// A query of an advice column at a row offset relative to a gate's own row.
#[derive(Clone, Copy, PartialEq, Eq, Structural, Debug)]
pub struct AdviceQuery {
    pub column: usize,
    pub rotation: usize,
}

/// A selector-guarded addition gate: on every row where the selector is
/// active, the value at query `a` plus the value at query `b` must equal the
/// value at query `c`.
#[derive(Clone, Copy, PartialEq, Eq, Structural, Debug)]
pub struct Gate {
    pub selector: usize,
    pub a: AdviceQuery,
    pub b: AdviceQuery,
    pub c: AdviceQuery,
}

/// An absolute cell coordinate in either column kind.
#[derive(Clone, Copy, PartialEq, Eq, Structural, Debug)]
pub struct CellRef {
    pub kind: ColumnKind,
    pub column: usize,
    pub row: usize,
}

/// An unordered pair of cells declared equal, independent of any gate.
#[derive(Clone, Copy, PartialEq, Eq, Structural, Debug)]
pub struct CopyConstraint {
    pub left: CellRef,
    pub right: CellRef,
}

/// The aggregate of declared columns, selectors and gates. Built once during
/// configuration, before any witness exists, and read-only afterwards.
pub struct ConstraintSystem {
    /// One entry per advice column: whether equality constraints may use it.
    pub advice_eq: Vec<bool>,
    /// One entry per instance column: whether equality constraints may use it.
    pub instance_eq: Vec<bool>,
    /// Number of selectors allocated.
    pub num_selectors: usize,
    /// The registered gates.
    pub gates: Vec<Gate>,
}

/// Errors surfaced by configuration and synthesis.
#[derive(Clone, Copy, PartialEq, Eq, Structural, Debug)]
pub enum Error {
    /// A chip operation needed a concrete value that is still an unassigned
    /// placeholder.
    Synthesis,
    /// The row capacity of the layouter cannot hold the requested region.
    NotEnoughRows,
    /// A placement referenced a column, row offset or instance row that does
    /// not exist.
    InvalidQuery,
    /// A cell that was already assigned was assigned a second time.
    AlreadyAssigned,
}

/// A fully absolute, append-only set of cell assignments: the witness grid,
/// the per-row selector activations, and the declared copy constraints.
pub struct Assignment<F> {
    /// `advice[c][r]` is the value assigned to advice column `c` at row `r`.
    pub advice: Vec<Vec<Option<F>>>,
    /// `selectors[s][r]` tells whether selector `s` is active at row `r`.
    pub selectors: Vec<Vec<bool>>,
    /// The copy constraints declared during synthesis.
    pub copies: Vec<CopyConstraint>,
    /// The row capacity of the grid.
    pub num_rows: usize,
}

/// A named contiguous block of rows reserved by the layouter; chips address
/// cells by an offset local to the region.
#[derive(Clone, Copy, PartialEq, Eq, Structural, Debug)]
pub struct Region {
    pub start: usize,
    pub rows: usize,
}

/// A handle to a cell that has been assigned a concrete value.
#[derive(Clone, Copy, PartialEq, Eq, Structural, Debug)]
pub struct AssignedCell<F> {
    pub column: usize,
    pub row: usize,
    pub value: F,
}

/// A violation reported by the satisfiability checker.
#[derive(Clone, Copy, PartialEq, Eq, Structural, Debug)]
pub enum Violation {
    /// A gate at this index is active at this row and its constraint does
    /// not hold there.
    Gate { gate: usize, row: usize },
    /// The copy constraint at this index relates two advice cells whose
    /// values are not both assigned and equal.
    CopyMismatch { index: usize },
    /// A copy constraint binds an advice cell to this row of the instance
    /// column, and the public input does not match there.
    InstanceMismatch { row: usize },
}

/// The value assigned to advice column `col` at row `row`, or `None` when the
/// coordinate is out of range or the cell is unassigned.
pub open spec fn advice_value_at<F>(asn: Assignment<F>, col: int, row: int) -> Option<F> {
    if 0 <= col < asn.advice@.len() && 0 <= row < asn.advice@[col]@.len() {
        asn.advice@[col]@[row]
    } else {
        None
    }
}

/// Whether selector `sel` is active at row `row`.
pub open spec fn selector_on<F>(asn: Assignment<F>, sel: int, row: int) -> bool {
    &&& 0 <= sel < asn.selectors@.len()
    &&& 0 <= row < asn.selectors@[sel]@.len()
    &&& asn.selectors@[sel]@[row]
}

/// The value a cell holds under a given public input vector: advice cells
/// read the witness grid, instance cells read the public input.
pub open spec fn cell_value<F>(asn: Assignment<F>, public: Seq<F>, c: CellRef) -> Option<F> {
    match c.kind {
        ColumnKind::Advice => advice_value_at(asn, c.column as int, c.row as int),
        ColumnKind::Instance => if c.column == 0 && c.row < public.len() {
            Some(public[c.row as int])
        } else {
            None
        },
    }
}

/// Whether gate `g` holds at row `row`: wherever its selector is active, all
/// three queried cells are assigned and the first two sum to the third.
pub open spec fn gate_row_ok<F: FieldElement>(asn: Assignment<F>, g: Gate, row: int) -> bool {
    selector_on(asn, g.selector as int, row) ==> {
        let av = advice_value_at(asn, g.a.column as int, row + g.a.rotation);
        let bv = advice_value_at(asn, g.b.column as int, row + g.b.rotation);
        let cv = advice_value_at(asn, g.c.column as int, row + g.c.rotation);
        av is Some && bv is Some && cv is Some && av.unwrap().plus_spec(bv.unwrap())
            == cv.unwrap()
    }
}

/// Whether a copy constraint holds: both cells carry a value and the values
/// are equal.
pub open spec fn copy_ok<F>(asn: Assignment<F>, public: Seq<F>, cc: CopyConstraint) -> bool {
    cell_value(asn, public, cc.left) is Some && cell_value(asn, public, cc.left) == cell_value(
        asn,
        public,
        cc.right,
    )
}

/// Full satisfiability: every gate holds on every row, and every declared
/// copy constraint holds.
pub open spec fn satisfied<F: FieldElement>(
    cs: ConstraintSystem,
    asn: Assignment<F>,
    public: Seq<F>,
) -> bool {
    &&& forall|g: int, row: int|
        0 <= g < cs.gates@.len() && 0 <= row < asn.num_rows ==> #[trigger] gate_row_ok(
            asn,
            cs.gates@[g],
            row,
        )
    &&& forall|i: int|
        0 <= i < asn.copies@.len() ==> copy_ok(asn, public, #[trigger] asn.copies@[i])
}

/// Whether a copy constraint touches row `row` of the instance column.
pub open spec fn copy_touches_instance_row(cc: CopyConstraint, row: usize) -> bool {
    ||| (cc.left.kind is Instance && cc.left.row == row)
    ||| (cc.right.kind is Instance && cc.right.row == row)
}

/// A valid `Gate` report: the named gate is active at the named row and its
/// constraint does not hold there.
pub open spec fn is_gate_violation<F: FieldElement>(
    cs: ConstraintSystem,
    asn: Assignment<F>,
    v: Violation,
) -> bool {
    match v {
        Violation::Gate { gate, row } => {
            &&& gate < cs.gates@.len()
            &&& row < asn.num_rows
            &&& !gate_row_ok(asn, cs.gates@[gate as int], row as int)
        },
        _ => false,
    }
}

/// A valid `CopyMismatch` report: the named copy constraint relates two
/// advice cells and does not hold.
pub open spec fn is_copy_violation<F>(asn: Assignment<F>, public: Seq<F>, v: Violation) -> bool {
    match v {
        Violation::CopyMismatch { index } => {
            &&& index < asn.copies@.len()
            &&& asn.copies@[index as int].left.kind is Advice
            &&& asn.copies@[index as int].right.kind is Advice
            &&& !copy_ok(asn, public, asn.copies@[index as int])
        },
        _ => false,
    }
}

/// A valid `InstanceMismatch` report, restricted to the first `n` declared
/// copy constraints: some failing copy among them binds a cell to the named
/// instance row.
pub open spec fn is_instance_violation_upto<F>(
    asn: Assignment<F>,
    public: Seq<F>,
    v: Violation,
    n: int,
) -> bool {
    match v {
        Violation::InstanceMismatch { row } => exists|i: int|
            {
                &&& 0 <= i < n
                &&& copy_touches_instance_row(#[trigger] asn.copies@[i], row)
                &&& !copy_ok(asn, public, asn.copies@[i])
            },
        _ => false,
    }
}

/// A valid `InstanceMismatch` report over all declared copy constraints.
pub open spec fn is_instance_violation<F>(asn: Assignment<F>, public: Seq<F>, v: Violation) -> bool {
    is_instance_violation_upto(asn, public, v, asn.copies@.len() as int)
}

/// What makes a reported violation valid, by its kind.
pub open spec fn is_violation<F: FieldElement>(
    cs: ConstraintSystem,
    asn: Assignment<F>,
    public: Seq<F>,
    v: Violation,
) -> bool {
    ||| is_gate_violation(cs, asn, v)
    ||| is_copy_violation(asn, public, v)
    ||| is_instance_violation(asn, public, v)
}

impl ConstraintSystem {
    /// Number of advice columns declared so far.
    pub open spec fn num_advice(self) -> int {
        self.advice_eq@.len() as int
    }

    /// Number of instance columns declared so far.
    pub open spec fn num_instance(self) -> int {
        self.instance_eq@.len() as int
    }

    /// An empty registry: no columns, selectors or gates.
    pub open spec fn is_fresh(self) -> bool {
        &&& self.advice_eq@.len() == 0
        &&& self.instance_eq@.len() == 0
        &&& self.num_selectors == 0
        &&& self.gates@.len() == 0
    }

    /// Start a new, empty constraint system.
    pub fn new() -> (r: Self)
        ensures
            r.is_fresh(),
    {
        ConstraintSystem { advice_eq: Vec::new(), instance_eq: Vec::new(), num_selectors: 0, gates: Vec::new() }
    }

    /// Declare a new advice column, initially without the equality capability.
    pub fn advice_column(&mut self) -> (c: AdviceColumn)
        ensures
            c.index == old(self).num_advice(),
            final(self).advice_eq@ == old(self).advice_eq@.push(false),
            final(self).instance_eq == old(self).instance_eq,
            final(self).num_selectors == old(self).num_selectors,
            final(self).gates == old(self).gates,
    {
        let index = self.advice_eq.len();
        self.advice_eq.push(false);
        AdviceColumn { index }
    }

    /// Declare a new instance column, initially without the equality
    /// capability.
    pub fn instance_column(&mut self) -> (c: InstanceColumn)
        ensures
            c.index == old(self).num_instance(),
            final(self).instance_eq@ == old(self).instance_eq@.push(false),
            final(self).advice_eq == old(self).advice_eq,
            final(self).num_selectors == old(self).num_selectors,
            final(self).gates == old(self).gates,
    {
        let index = self.instance_eq.len();
        self.instance_eq.push(false);
        InstanceColumn { index }
    }

    /// Allocate a new selector.
    pub fn selector(&mut self) -> (s: Selector)
        requires
            old(self).num_selectors < usize::MAX,
        ensures
            s.index == old(self).num_selectors,
            final(self).num_selectors == old(self).num_selectors + 1,
            final(self).advice_eq == old(self).advice_eq,
            final(self).instance_eq == old(self).instance_eq,
            final(self).gates == old(self).gates,
    {
        let index = self.num_selectors;
        self.num_selectors = index + 1;
        Selector { index }
    }

    /// Enable the equality-constraint capability on an advice column.
    pub fn enable_equality(&mut self, c: AdviceColumn)
        requires
            c.index < old(self).num_advice(),
        ensures
            final(self).advice_eq@ == old(self).advice_eq@.update(c.index as int, true),
            final(self).instance_eq == old(self).instance_eq,
            final(self).num_selectors == old(self).num_selectors,
            final(self).gates == old(self).gates,
    {
        self.advice_eq[c.index] = true;
    }

    /// Enable the equality-constraint capability on an instance column.
    pub fn enable_instance_equality(&mut self, c: InstanceColumn)
        requires
            c.index < old(self).num_instance(),
        ensures
            final(self).instance_eq@ == old(self).instance_eq@.update(c.index as int, true),
            final(self).advice_eq == old(self).advice_eq,
            final(self).num_selectors == old(self).num_selectors,
            final(self).gates == old(self).gates,
    {
        self.instance_eq[c.index] = true;
    }

    /// Register a gate. Referencing a column or selector that was never
    /// declared is a configuration-time fault, so it is ruled out up front.
    pub fn create_gate(&mut self, g: Gate)
        requires
            g.selector < old(self).num_selectors,
            g.a.column < old(self).num_advice(),
            g.b.column < old(self).num_advice(),
            g.c.column < old(self).num_advice(),
        ensures
            final(self).gates@ == old(self).gates@.push(g),
            final(self).advice_eq == old(self).advice_eq,
            final(self).instance_eq == old(self).instance_eq,
            final(self).num_selectors == old(self).num_selectors,
    {
        self.gates.push(g);
    }
}

impl<F> Assignment<F> {
    /// The grid has the declared shape: one advice column vector per declared
    /// column and one selector vector per declared selector, each of the full
    /// row capacity.
    pub open spec fn shape_wf(self) -> bool {
        &&& forall|c: int| 0 <= c < self.advice@.len() ==> (#[trigger] self.advice@[c])@.len()
            == self.num_rows
        &&& forall|s: int| 0 <= s < self.selectors@.len() ==> (#[trigger] self.selectors@[s])@.len()
            == self.num_rows
    }

    /// All rows from `row` on are untouched: no assigned cell, no active
    /// selector.
    pub open spec fn clean_from(self, row: int) -> bool {
        &&& forall|c: int, r: int|
            0 <= c < self.advice@.len() && row <= r < self.advice@[c]@.len() ==> (
            #[trigger] self.advice@[c]@[r]) is None
        &&& forall|s: int, r: int|
            0 <= s < self.selectors@.len() && row <= r < self.selectors@[s]@.len() ==> !(
            #[trigger] self.selectors@[s]@[r])
    }
}

/// The region/layout manager: hands out contiguous regions, translates
/// region-local placements into absolute coordinates, and records copy
/// constraints, growing the assignment append-only.
pub struct Layouter<F> {
    /// The assignments made so far.
    pub assignment: Assignment<F>,
    /// The public input vector backing the instance column.
    pub instance: Vec<F>,
    /// The first row not covered by any region handed out so far.
    pub next_row: usize,
}

impl<F: FieldElement> Layouter<F> {
    /// The layouter's invariant: the grid keeps its declared shape and every
    /// row at or past `next_row` is still untouched.
    pub open spec fn inv(self) -> bool {
        &&& self.assignment.shape_wf()
        &&& self.next_row <= self.assignment.num_rows
        &&& self.assignment.clean_from(self.next_row as int)
    }

    /// A layouter in its starting state: nothing placed, no copy constraints.
    pub open spec fn fresh(self) -> bool {
        &&& self.inv()
        &&& self.next_row == 0
        &&& self.assignment.copies@.len() == 0
    }

    /// Start a layouter for the columns and selectors declared in `cs`, with
    /// `max_rows` rows of capacity and the given public input vector.
    pub fn new(cs: &ConstraintSystem, max_rows: usize, instance: Vec<F>) -> (r: Self)
        ensures
            r.fresh(),
            r.assignment.advice@.len() == cs.num_advice(),
            r.assignment.selectors@.len() == cs.num_selectors,
            r.assignment.num_rows == max_rows,
            r.instance == instance,
    {
        let num_advice = cs.advice_eq.len();
        let mut advice: Vec<Vec<Option<F>>> = Vec::new();
        for c in 0..num_advice
            invariant
                advice@.len() == c,
                forall|i: int| 0 <= i < c ==> (#[trigger] advice@[i])@.len() == max_rows,
                forall|i: int, r: int|
                    0 <= i < c && 0 <= r < advice@[i]@.len() ==> (#[trigger] advice@[i]@[r])
                        is None,
        {
            advice.push(none_column(max_rows));
        }
        let mut selectors: Vec<Vec<bool>> = Vec::new();
        for s in 0..cs.num_selectors
            invariant
                selectors@.len() == s,
                forall|i: int| 0 <= i < s ==> (#[trigger] selectors@[i])@.len() == max_rows,
                forall|i: int, r: int|
                    0 <= i < s && 0 <= r < selectors@[i]@.len() ==> !(
                    #[trigger] selectors@[i]@[r]),
        {
            selectors.push(off_column(max_rows));
        }
        Layouter {
            assignment: Assignment { advice, selectors, copies: Vec::new(), num_rows: max_rows },
            instance,
            next_row: 0,
        }
    }

    /// Reserve the next contiguous block of `rows` rows as a fresh region.
    pub fn new_region(&mut self, rows: usize) -> (r: Result<Region, Error>)
        requires
            old(self).inv(),
        ensures
            final(self).inv(),
            final(self).assignment == old(self).assignment,
            final(self).instance == old(self).instance,
            match r {
                Ok(region) => {
                    &&& region.start == old(self).next_row
                    &&& region.rows == rows
                    &&& final(self).next_row == old(self).next_row + rows
                    &&& old(self).next_row + rows <= old(self).assignment.num_rows
                },
                Err(e) => {
                    &&& e == Error::NotEnoughRows
                    &&& final(self).next_row == old(self).next_row
                    &&& old(self).next_row + rows > old(self).assignment.num_rows
                },
            },
    {
        let avail = self.assignment.num_rows - self.next_row;
        if rows > avail {
            return Err(Error::NotEnoughRows);
        }
        let start = self.next_row;
        self.next_row = start + rows;
        Ok(Region { start, rows })
    }

    /// Activate a selector at a region-local row.
    pub fn enable_selector(&mut self, region: Region, sel: Selector, offset: usize) -> (r: Result<
        (),
        Error,
    >)
        requires
            old(self).inv(),
            region.start + region.rows <= old(self).next_row,
        ensures
            final(self).inv(),
            final(self).next_row == old(self).next_row,
            final(self).instance == old(self).instance,
            final(self).assignment.num_rows == old(self).assignment.num_rows,
            final(self).assignment.advice == old(self).assignment.advice,
            final(self).assignment.copies == old(self).assignment.copies,
            final(self).assignment.selectors@.len() == old(self).assignment.selectors@.len(),
            match r {
                Ok(()) => {
                    &&& sel.index < old(self).assignment.selectors@.len()
                    &&& offset < region.rows
                    &&& forall|s: int, rr: int|
                        selector_on(final(self).assignment, s, rr) == (selector_on(
                            old(self).assignment,
                            s,
                            rr,
                        ) || (s == sel.index && rr == region.start + offset))
                },
                Err(e) => {
                    &&& e == Error::InvalidQuery
                    &&& final(self).assignment == old(self).assignment
                    &&& (sel.index >= old(self).assignment.selectors@.len() || offset
                        >= region.rows)
                },
            },
    {
        if sel.index >= self.assignment.selectors.len() || offset >= region.rows {
            return Err(Error::InvalidQuery);
        }
        let row = region.start + offset;
        self.assignment.selectors[sel.index][row] = true;
        proof {
            assert forall|s: int, rr: int|
                selector_on(self.assignment, s, rr) == (selector_on(old(self).assignment, s, rr)
                    || (s == sel.index && rr == region.start + offset)) by {
                if s == sel.index && 0 <= rr < self.assignment.selectors@[s]@.len() {
                }
            }
        }
        Ok(())
    }

    /// Place a concrete value into an advice cell at a region-local row. The
    /// value must be a resolved witness; a cell is assigned at most once.
    pub fn assign_advice(
        &mut self,
        region: Region,
        col: AdviceColumn,
        offset: usize,
        value: Option<F>,
    ) -> (r: Result<AssignedCell<F>, Error>)
        requires
            old(self).inv(),
            region.start + region.rows <= old(self).next_row,
        ensures
            final(self).inv(),
            final(self).next_row == old(self).next_row,
            final(self).instance == old(self).instance,
            final(self).assignment.num_rows == old(self).assignment.num_rows,
            final(self).assignment.advice@.len() == old(self).assignment.advice@.len(),
            final(self).assignment.selectors == old(self).assignment.selectors,
            final(self).assignment.copies == old(self).assignment.copies,
            match r {
                Ok(cell) => {
                    &&& value == Some(cell.value)
                    &&& col.index < old(self).assignment.advice@.len()
                    &&& offset < region.rows
                    &&& cell.column == col.index
                    &&& cell.row == region.start + offset
                    &&& advice_value_at(old(self).assignment, col.index as int, cell.row as int)
                        is None
                    &&& forall|c: int, rr: int|
                        advice_value_at(final(self).assignment, c, rr) == if c == col.index && rr
                            == cell.row {
                            Some(cell.value)
                        } else {
                            advice_value_at(old(self).assignment, c, rr)
                        }
                },
                Err(e) => {
                    &&& final(self).assignment == old(self).assignment
                    &&& (value is None || col.index >= old(self).assignment.advice@.len() || offset
                        >= region.rows || advice_value_at(
                        old(self).assignment,
                        col.index as int,
                        (region.start + offset) as int,
                    ) is Some)
                    &&& e == (if value is None {
                        Error::Synthesis
                    } else if col.index >= old(self).assignment.advice@.len() || offset
                        >= region.rows {
                        Error::InvalidQuery
                    } else {
                        Error::AlreadyAssigned
                    })
                },
            },
    {
        let v = match value {
            Some(v) => v,
            None => {
                return Err(Error::Synthesis);
            },
        };
        if col.index >= self.assignment.advice.len() || offset >= region.rows {
            return Err(Error::InvalidQuery);
        }
        let row = region.start + offset;
        if self.assignment.advice[col.index][row].is_some() {
            return Err(Error::AlreadyAssigned);
        }
        self.assignment.advice[col.index][row] = Some(v);
        proof {
            assert forall|c: int, rr: int|
                advice_value_at(self.assignment, c, rr) == if c == col.index && rr == row as int {
                    Some(v)
                } else {
                    advice_value_at(old(self).assignment, c, rr)
                } by {
                if c == col.index && 0 <= rr < self.assignment.advice@[c]@.len() {
                }
            }
        }
        Ok(AssignedCell { column: col.index, row, value: v })
    }

    /// Place the value of an instance row into an advice cell and record the
    /// copy constraint binding the two.
    pub fn assign_advice_from_instance(
        &mut self,
        region: Region,
        instance_row: usize,
        col: AdviceColumn,
        offset: usize,
    ) -> (r: Result<AssignedCell<F>, Error>)
        requires
            old(self).inv(),
            region.start + region.rows <= old(self).next_row,
        ensures
            final(self).inv(),
            final(self).next_row == old(self).next_row,
            final(self).instance == old(self).instance,
            final(self).assignment.num_rows == old(self).assignment.num_rows,
            final(self).assignment.advice@.len() == old(self).assignment.advice@.len(),
            final(self).assignment.selectors == old(self).assignment.selectors,
            match r {
                Ok(cell) => {
                    &&& instance_row < old(self).instance@.len()
                    &&& cell.value == old(self).instance@[instance_row as int]
                    &&& col.index < old(self).assignment.advice@.len()
                    &&& offset < region.rows
                    &&& cell.column == col.index
                    &&& cell.row == region.start + offset
                    &&& advice_value_at(old(self).assignment, col.index as int, cell.row as int)
                        is None
                    &&& forall|c: int, rr: int|
                        advice_value_at(final(self).assignment, c, rr) == if c == col.index && rr
                            == cell.row {
                            Some(cell.value)
                        } else {
                            advice_value_at(old(self).assignment, c, rr)
                        }
                    &&& final(self).assignment.copies@ == old(self).assignment.copies@.push(
                        (CopyConstraint {
                            left: CellRef { kind: ColumnKind::Advice, column: col.index, row: cell.row },
                            right: CellRef { kind: ColumnKind::Instance, column: 0, row: instance_row },
                        }),
                    )
                },
                Err(_) => {
                    &&& final(self).assignment == old(self).assignment
                    &&& (instance_row >= old(self).instance@.len() || col.index >= old(
                        self,
                    ).assignment.advice@.len() || offset >= region.rows || advice_value_at(
                        old(self).assignment,
                        col.index as int,
                        (region.start + offset) as int,
                    ) is Some)
                },
            },
    {
        if instance_row >= self.instance.len() {
            return Err(Error::InvalidQuery);
        }
        let v = self.instance[instance_row];
        let cell = match self.assign_advice(region, col, offset, Some(v)) {
            Ok(cell) => cell,
            Err(e) => {
                return Err(e);
            },
        };
        let ghost mid = *self;
        self.assignment.copies.push(
            CopyConstraint {
                left: CellRef { kind: ColumnKind::Advice, column: cell.column, row: cell.row },
                right: CellRef { kind: ColumnKind::Instance, column: 0, row: instance_row },
            },
        );
        proof {
            assert(self.assignment.advice == mid.assignment.advice);
            assert forall|c: int, rr: int|
                advice_value_at(self.assignment, c, rr) == (if c == col.index && rr
                    == cell.row {
                    Some(cell.value)
                } else {
                    advice_value_at(old(self).assignment, c, rr)
                }) by {
                assert(advice_value_at(self.assignment, c, rr) == advice_value_at(
                    mid.assignment,
                    c,
                    rr,
                ));
            }
        }
        Ok(cell)
    }

    /// Record a copy constraint binding an assigned advice cell to a row of
    /// the instance column, making that witness value publicly checkable.
    pub fn constrain_instance(&mut self, cell: &AssignedCell<F>, instance_row: usize)
        requires
            old(self).inv(),
        ensures
            final(self).inv(),
            final(self).next_row == old(self).next_row,
            final(self).instance == old(self).instance,
            final(self).assignment.num_rows == old(self).assignment.num_rows,
            final(self).assignment.advice == old(self).assignment.advice,
            final(self).assignment.selectors == old(self).assignment.selectors,
            final(self).assignment.copies@ == old(self).assignment.copies@.push(
                (CopyConstraint {
                    left: CellRef { kind: ColumnKind::Advice, column: cell.column, row: cell.row },
                    right: CellRef { kind: ColumnKind::Instance, column: 0, row: instance_row },
                }),
            ),
    {
        self.assignment.copies.push(
            CopyConstraint {
                left: CellRef { kind: ColumnKind::Advice, column: cell.column, row: cell.row },
                right: CellRef { kind: ColumnKind::Instance, column: 0, row: instance_row },
            },
        );
    }
}

/// The row capacity that the log2 bound `k` grants a constraint system:
/// two to the power `k`.
pub fn row_capacity(k: usize) -> (r: usize)
    requires
        pow2(k as nat) <= usize::MAX,
    ensures
        r == pow2(k as nat),
{
    let mut r: usize = 1;
    let mut i: usize = 0;
    proof {
        reveal(vstd::arithmetic::power::pow);
    }
    while i < k
        invariant
            i <= k,
            r == pow2(i as nat),
            pow2(k as nat) <= usize::MAX,
        decreases k - i,
    {
        proof {
            lemma_pow2_unfold((i + 1) as nat);
            if i + 1 < k {
                lemma_pow2_strictly_increases((i + 1) as nat, k as nat);
            }
        }
        r = r * 2;
        i = i + 1;
    }
    r
}

/// A column vector of `n` unassigned cells.
fn none_column<F>(n: usize) -> (c: Vec<Option<F>>)
    ensures
        c@.len() == n,
        forall|r: int| 0 <= r < n ==> c@[r] is None,
{
    let mut c: Vec<Option<F>> = Vec::new();
    for i in 0..n
        invariant
            c@.len() == i,
            forall|r: int| 0 <= r < i ==> c@[r] is None,
    {
        c.push(None);
    }
    c
}

/// A valid `CopyMismatch` report among the first `n` declared copies.
pub open spec fn is_copy_violation_upto<F>(
    asn: Assignment<F>,
    public: Seq<F>,
    v: Violation,
    n: int,
) -> bool {
    match v {
        Violation::CopyMismatch { index } => index < n && is_copy_violation(asn, public, v),
        _ => false,
    }
}

/// Pushing onto a sequence adds exactly the pushed element to its contents.
proof fn lemma_push_contains<T>(s: Seq<T>, x: T, y: T)
    ensures
        s.push(x).contains(y) <==> (s.contains(y) || y == x),
{
    if s.push(x).contains(y) {
        let i = choose|i: int| 0 <= i < s.push(x).len() && s.push(x)[i] == y;
        if i < s.len() {
            assert(s[i] == y);
        }
    }
    if s.contains(y) {
        let i = choose|i: int| 0 <= i < s.len() && s[i] == y;
        assert(s.push(x)[i] == y);
    }
    if y == x {
        assert(s.push(x)[s.len() as int] == y);
    }
}

/// Concatenation holds exactly the contents of its two parts.
proof fn lemma_add_contains<T>(s1: Seq<T>, s2: Seq<T>, y: T)
    ensures
        (s1 + s2).contains(y) <==> (s1.contains(y) || s2.contains(y)),
{
    if (s1 + s2).contains(y) {
        let i = choose|i: int| 0 <= i < (s1 + s2).len() && (s1 + s2)[i] == y;
        if i < s1.len() {
            assert(s1[i] == y);
        } else {
            assert(s2[i - s1.len()] == y);
        }
    }
    if s1.contains(y) {
        let i = choose|i: int| 0 <= i < s1.len() && s1[i] == y;
        assert((s1 + s2)[i] == y);
    }
    if s2.contains(y) {
        let i = choose|i: int| 0 <= i < s2.len() && s2[i] == y;
        assert((s1 + s2)[i + s1.len()] == y);
    }
}

/// The value an advice query yields at a gate row, reading the witness grid.
fn query_value<F: FieldElement>(asn: &Assignment<F>, q: AdviceQuery, row: usize) -> (r: Option<F>)
    ensures
        r == advice_value_at(*asn, q.column as int, row + q.rotation),
{
    if q.column >= asn.advice.len() {
        return None;
    }
    let len = asn.advice[q.column].len();
    if q.rotation >= len || row >= len - q.rotation {
        return None;
    }
    asn.advice[q.column][row + q.rotation]
}

/// Evaluate one gate at one row, as `gate_row_ok` states it.
fn eval_gate_row<F: FieldElement>(asn: &Assignment<F>, g: &Gate, row: usize) -> (ok: bool)
    ensures
        ok == gate_row_ok(*asn, *g, row as int),
{
    let active = g.selector < asn.selectors.len() && row < asn.selectors[g.selector].len()
        && asn.selectors[g.selector][row];
    if !active {
        return true;
    }
    let av = query_value(asn, g.a, row);
    let bv = query_value(asn, g.b, row);
    let cv = query_value(asn, g.c, row);
    match (av, bv, cv) {
        (Some(x), Some(y), Some(z)) => x.plus(y).same(z),
        _ => false,
    }
}

/// The value a cell holds under the given public input vector.
fn cell_value_exec<F: FieldElement>(asn: &Assignment<F>, public: &Vec<F>, c: CellRef) -> (r: Option<
    F,
>)
    ensures
        r == cell_value(*asn, public@, c),
{
    match c.kind {
        ColumnKind::Advice => {
            if c.column >= asn.advice.len() {
                return None;
            }
            if c.row >= asn.advice[c.column].len() {
                return None;
            }
            asn.advice[c.column][c.row]
        },
        ColumnKind::Instance => {
            if c.column == 0 && c.row < public.len() {
                Some(public[c.row])
            } else {
                None
            }
        },
    }
}

/// Evaluate one copy constraint, as `copy_ok` states it.
fn eval_copy<F: FieldElement>(asn: &Assignment<F>, public: &Vec<F>, cc: CopyConstraint) -> (ok:
    bool)
    ensures
        ok == copy_ok(*asn, public@, cc),
{
    let lv = cell_value_exec(asn, public, cc.left);
    let rv = cell_value_exec(asn, public, cc.right);
    match (lv, rv) {
        (Some(x), Some(y)) => x.same(y),
        _ => false,
    }
}

/// Whether a `Gate` report lies before position (`g`, `row`) in the scan
/// order of gate checking.
spec fn gate_before(v: Violation, g: int, row: int) -> bool {
    match v {
        Violation::Gate { gate, row: r } => gate < g || (gate == g && r < row),
        _ => false,
    }
}

/// Scan every gate over every row and collect the failures.
fn check_gates<F: FieldElement>(cs: &ConstraintSystem, asn: &Assignment<F>) -> (out: Vec<Violation>)
    ensures
        forall|v: Violation| #[trigger]
            out@.contains(v) <==> is_gate_violation(*cs, *asn, v),
{
    let mut out: Vec<Violation> = Vec::new();
    let ng = cs.gates.len();
    for g in 0..ng
        invariant
            ng == cs.gates@.len(),
            forall|v: Violation| #[trigger]
                out@.contains(v) <==> (is_gate_violation(*cs, *asn, v) && gate_before(
                    v,
                    g as int,
                    0,
                )),
    {
        let gate = cs.gates[g];
        let nrows = asn.num_rows;
        for row in 0..nrows
            invariant
                ng == cs.gates@.len(),
                0 <= g < cs.gates@.len(),
                gate == cs.gates@[g as int],
                nrows == asn.num_rows,
                forall|v: Violation| #[trigger]
                    out@.contains(v) <==> (is_gate_violation(*cs, *asn, v) && gate_before(
                        v,
                        g as int,
                        row as int,
                    )),
        {
            if !eval_gate_row(asn, &gate, row) {
                let ghost before = out@;
                out.push(Violation::Gate { gate: g, row });
                proof {
                    assert forall|v: Violation| #[trigger]
                        out@.contains(v) <==> (is_gate_violation(*cs, *asn, v) && gate_before(
                            v,
                            g as int,
                            row + 1,
                        )) by {
                        lemma_push_contains(before, Violation::Gate { gate: g, row }, v);
                    }
                }
            }
        }
    }
    out
}

/// Scan every copy constraint and collect the failures, classified as
/// advice-to-advice mismatches or public-input mismatches.
fn check_copies<F: FieldElement>(asn: &Assignment<F>, public: &Vec<F>) -> (out: Vec<Violation>)
    ensures
        forall|v: Violation| #[trigger]
            out@.contains(v) <==> (is_copy_violation(*asn, public@, v) || is_instance_violation(
                *asn,
                public@,
                v,
            )),
{
    let mut out: Vec<Violation> = Vec::new();
    let ncopies = asn.copies.len();
    for i in 0..ncopies
        invariant
            ncopies == asn.copies@.len(),
            forall|v: Violation| #[trigger]
                out@.contains(v) <==> (is_copy_violation_upto(*asn, public@, v, i as int)
                    || is_instance_violation_upto(*asn, public@, v, i as int)),
    {
        let cc = asn.copies[i];
        let ok = eval_copy(asn, public, cc);
        if !ok {
            let left_instance = matches!(cc.left.kind, ColumnKind::Instance);
            let right_instance = matches!(cc.right.kind, ColumnKind::Instance);
            if !left_instance && !right_instance {
                let ghost before = out@;
                out.push(Violation::CopyMismatch { index: i });
                proof {
                    assert forall|v: Violation| #[trigger]
                        out@.contains(v) <==> (is_copy_violation_upto(*asn, public@, v, i + 1)
                            || is_instance_violation_upto(*asn, public@, v, i + 1)) by {
                        lemma_push_contains(before, Violation::CopyMismatch { index: i }, v);
                    }
                }
            } else {
                let ghost mid0 = out@;
                if left_instance {
                    out.push(Violation::InstanceMismatch { row: cc.left.row });
                }
                let ghost mid = out@;
                if right_instance {
                    out.push(Violation::InstanceMismatch { row: cc.right.row });
                }
                proof {
                    if left_instance {
                        lemma_push_contains(
                            mid0,
                            Violation::InstanceMismatch { row: cc.left.row },
                            Violation::InstanceMismatch { row: cc.left.row },
                        );
                    }
                    assert forall|v: Violation| #[trigger]
                        out@.contains(v) <==> (is_copy_violation_upto(*asn, public@, v, i + 1)
                            || is_instance_violation_upto(*asn, public@, v, i + 1)) by {
                        if left_instance {
                            lemma_push_contains(
                                mid0,
                                Violation::InstanceMismatch { row: cc.left.row },
                                v,
                            );
                        }
                        if right_instance {
                            lemma_push_contains(
                                mid,
                                Violation::InstanceMismatch { row: cc.right.row },
                                v,
                            );
                        }
                        if is_instance_violation_upto(*asn, public@, v, i + 1)
                            && !is_instance_violation_upto(*asn, public@, v, i as int) {
                            let j = choose|j: int|
                                0 <= j < i + 1 && copy_touches_instance_row(
                                    #[trigger] asn.copies@[j],
                                    instance_row_named(v),
                                ) && !copy_ok(*asn, public@, asn.copies@[j]);
                            assert(j == i);
                        }
                    }
                }
            }
        } else {
            proof {
                assert forall|v: Violation| #[trigger]
                    out@.contains(v) <==> (is_copy_violation_upto(*asn, public@, v, i + 1)
                        || is_instance_violation_upto(*asn, public@, v, i + 1)) by {
                    if is_instance_violation_upto(*asn, public@, v, i + 1)
                        && !is_instance_violation_upto(*asn, public@, v, i as int) {
                        let j = choose|j: int|
                            0 <= j < i + 1 && copy_touches_instance_row(
                                #[trigger] asn.copies@[j],
                                instance_row_named(v),
                            ) && !copy_ok(*asn, public@, asn.copies@[j]);
                        assert(j == i);
                    }
                }
            }
        }
    }
    proof {
        assert forall|v: Violation| #[trigger]
            out@.contains(v) <==> (is_copy_violation(*asn, public@, v) || is_instance_violation(
                *asn,
                public@,
                v,
            )) by {
            assert(is_copy_violation_upto(*asn, public@, v, ncopies as int) == is_copy_violation(
                *asn,
                public@,
                v,
            ));
        }
    }
    out
}

/// The instance row a `InstanceMismatch` report names.
spec fn instance_row_named(v: Violation) -> usize {
    match v {
        Violation::InstanceMismatch { row } => row,
        _ => 0,
    }
}

/// An assignment is satisfied exactly when no violation of any kind is valid.
pub proof fn lemma_satisfied_iff_no_violation<F: FieldElement>(
    cs: ConstraintSystem,
    asn: Assignment<F>,
    public: Seq<F>,
)
    ensures
        satisfied(cs, asn, public) <==> (forall|v: Violation|
            !is_violation(cs, asn, public, v)),
{
    if satisfied(cs, asn, public) {
        assert forall|v: Violation| !is_violation(cs, asn, public, v) by {
            match v {
                Violation::Gate { gate, row } => {
                    if gate < cs.gates@.len() && row < asn.num_rows {
                        assert(gate_row_ok(asn, cs.gates@[gate as int], row as int));
                    }
                },
                Violation::CopyMismatch { index } => {
                    if index < asn.copies@.len() {
                        assert(copy_ok(asn, public, asn.copies@[index as int]));
                    }
                },
                Violation::InstanceMismatch { row } => {
                    if is_instance_violation(asn, public, v) {
                        let i = choose|i: int|
                            0 <= i < asn.copies@.len() && copy_touches_instance_row(
                                #[trigger] asn.copies@[i],
                                row,
                            ) && !copy_ok(asn, public, asn.copies@[i]);
                        assert(copy_ok(asn, public, asn.copies@[i]));
                    }
                },
            }
        }
    } else {
        if !(forall|g: int, row: int|
            0 <= g < cs.gates@.len() && 0 <= row < asn.num_rows ==> #[trigger] gate_row_ok(
                asn,
                cs.gates@[g],
                row,
            )) {
            let (g, row): (int, int) = choose|g: int, row: int|
                0 <= g < cs.gates@.len() && 0 <= row < asn.num_rows && !(#[trigger] gate_row_ok(
                    asn,
                    cs.gates@[g],
                    row,
                ));
            assert(cs.gates.len() == cs.gates@.len());
            assert(g as usize as int == g && row as usize as int == row);
            assert(is_violation(
                cs,
                asn,
                public,
                Violation::Gate { gate: g as usize, row: row as usize },
            ));
        } else {
            let i = choose|i: int|
                0 <= i < asn.copies@.len() && !copy_ok(asn, public, #[trigger] asn.copies@[i]);
            let cc = asn.copies@[i];
            if cc.left.kind is Instance {
                assert(copy_touches_instance_row(asn.copies@[i], cc.left.row));
                assert(is_violation(
                    cs,
                    asn,
                    public,
                    Violation::InstanceMismatch { row: cc.left.row },
                ));
            } else if cc.right.kind is Instance {
                assert(copy_touches_instance_row(asn.copies@[i], cc.right.row));
                assert(is_violation(
                    cs,
                    asn,
                    public,
                    Violation::InstanceMismatch { row: cc.right.row },
                ));
            } else {
                assert(asn.copies.len() == asn.copies@.len());
                assert(i as usize as int == i);
                assert(is_violation(
                    cs,
                    asn,
                    public,
                    Violation::CopyMismatch { index: i as usize },
                ));
            }
        }
    }
}

/// The satisfiability checker: evaluate every gate on every row and every
/// declared copy constraint against the given public input vector, and
/// report every violation rather than stopping at the first. The result is
/// empty exactly when the assignment satisfies the constraint system.
pub fn check<F: FieldElement>(
    cs: &ConstraintSystem,
    asn: &Assignment<F>,
    public: &Vec<F>,
) -> (out: Vec<Violation>)
    ensures
        forall|v: Violation| #[trigger]
            out@.contains(v) <==> is_violation(*cs, *asn, public@, v),
        (out@.len() == 0) <==> satisfied(*cs, *asn, public@),
{
    let mut out = check_gates(cs, asn);
    let ghost gates_part = out@;
    let mut rest = check_copies(asn, public);
    let ghost copies_part = rest@;
    out.append(&mut rest);
    proof {
        assert forall|v: Violation| #[trigger]
            out@.contains(v) <==> is_violation(*cs, *asn, public@, v) by {
            lemma_add_contains(gates_part, copies_part, v);
        }
        lemma_satisfied_iff_no_violation(*cs, *asn, public@);
        if out@.len() > 0 {
            assert(out@.contains(out@[0]));
            assert(!satisfied(*cs, *asn, public@));
        } else {
            assert forall|v: Violation| !is_violation(*cs, *asn, public@, v) by {
                assert(!out@.contains(v));
            }
        }
    }
    out
}

/// Whether a cell reference names the advice cell at (`col`, `row`).
pub open spec fn cell_is(cr: CellRef, col: int, row: int) -> bool {
    &&& cr.kind is Advice
    &&& cr.column == col
    &&& cr.row == row
}

/// Two assignments identical in shape, selectors and copies, and equal at
/// every advice cell except possibly (`col`, `row`).
pub open spec fn differs_only_at<F>(
    a1: Assignment<F>,
    a2: Assignment<F>,
    col: int,
    row: int,
) -> bool {
    &&& a2.selectors == a1.selectors
    &&& a2.copies == a1.copies
    &&& a2.num_rows == a1.num_rows
    &&& a2.advice@.len() == a1.advice@.len()
    &&& forall|c: int, r: int|
        !(c == col && r == row) ==> #[trigger] advice_value_at(a2, c, r) == advice_value_at(
            a1,
            c,
            r,
        )
}

/// Whether gate `g`, anchored at row `grow`, queries the advice cell at
/// (`col`, `row`).
pub open spec fn gate_queries_cell(g: Gate, grow: int, col: int, row: int) -> bool {
    ||| (g.a.column == col && grow + g.a.rotation == row)
    ||| (g.b.column == col && grow + g.b.rotation == row)
    ||| (g.c.column == col && grow + g.c.rotation == row)
}

/// Whether exactly one of gate `g`'s three queries at row `grow` reads the
/// advice cell at (`col`, `row`).
pub open spec fn gate_queries_cell_once(g: Gate, grow: int, col: int, row: int) -> bool {
    let ha = g.a.column == col && grow + g.a.rotation == row;
    let hb = g.b.column == col && grow + g.b.rotation == row;
    let hc = g.c.column == col && grow + g.c.rotation == row;
    ||| (ha && !hb && !hc)
    ||| (!ha && hb && !hc)
    ||| (!ha && !hb && hc)
}

/// Whether the constraint behind a violation reads the advice cell at
/// (`col`, `row`).
pub open spec fn violation_touches<F: FieldElement>(
    cs: ConstraintSystem,
    asn: Assignment<F>,
    v: Violation,
    col: int,
    row: int,
) -> bool {
    match v {
        Violation::Gate { gate, row: grow } => {
            &&& gate < cs.gates@.len()
            &&& gate_queries_cell(cs.gates@[gate as int], grow as int, col, row)
        },
        Violation::CopyMismatch { index } => {
            &&& index < asn.copies@.len()
            &&& (cell_is(asn.copies@[index as int].left, col, row) || cell_is(
                asn.copies@[index as int].right,
                col,
                row,
            ))
        },
        Violation::InstanceMismatch { row: irow } => exists|i: int|
            {
                &&& 0 <= i < asn.copies@.len()
                &&& copy_touches_instance_row(#[trigger] asn.copies@[i], irow)
                &&& (cell_is(asn.copies@[i].left, col, row) || cell_is(
                    asn.copies@[i].right,
                    col,
                    row,
                ))
            },
    }
}

/// Every advice value placed in the grid is a reduced field element.
pub open spec fn advice_all_valid<F: FieldElement>(asn: Assignment<F>) -> bool {
    forall|c: int, r: int| (#[trigger] advice_value_at(asn, c, r)) matches Some(x) ==> x.valid()
}

/// Mutating one assigned advice cell of a satisfied assignment can only make
/// the checker report constraints that read that cell: every valid violation
/// of the mutated assignment touches it.
pub proof fn lemma_mutation_reports_only_local<F: FieldElement>(
    cs: ConstraintSystem,
    a1: Assignment<F>,
    a2: Assignment<F>,
    public: Seq<F>,
    col: int,
    row: int,
)
    requires
        satisfied(cs, a1, public),
        differs_only_at(a1, a2, col, row),
    ensures
        forall|v: Violation| #[trigger]
            is_violation(cs, a2, public, v) ==> violation_touches(cs, a2, v, col, row),
{
    assert forall|v: Violation| #[trigger]
        is_violation(cs, a2, public, v) implies violation_touches(cs, a2, v, col, row) by {
        match v {
            Violation::Gate { gate, row: grow } => {
                if !gate_queries_cell(cs.gates@[gate as int], grow as int, col, row) {
                    let g = cs.gates@[gate as int];
                    assert(selector_on(a2, g.selector as int, grow as int) == selector_on(
                        a1,
                        g.selector as int,
                        grow as int,
                    ));
                    assert(advice_value_at(a2, g.a.column as int, grow + g.a.rotation)
                        == advice_value_at(a1, g.a.column as int, grow + g.a.rotation));
                    assert(advice_value_at(a2, g.b.column as int, grow + g.b.rotation)
                        == advice_value_at(a1, g.b.column as int, grow + g.b.rotation));
                    assert(advice_value_at(a2, g.c.column as int, grow + g.c.rotation)
                        == advice_value_at(a1, g.c.column as int, grow + g.c.rotation));
                    assert(gate_row_ok(a1, cs.gates@[gate as int], grow as int));
                    assert(gate_row_ok(a2, g, grow as int));
                    assert(false);
                }
            },
            Violation::CopyMismatch { index } => {
                let cc = a2.copies@[index as int];
                if !(cell_is(cc.left, col, row) || cell_is(cc.right, col, row)) {
                    assert(a1.copies@[index as int] == cc);
                    assert(cell_value(a2, public, cc.left) == cell_value(a1, public, cc.left));
                    assert(cell_value(a2, public, cc.right) == cell_value(a1, public, cc.right));
                    assert(copy_ok(a1, public, a1.copies@[index as int]));
                    assert(false);
                }
            },
            Violation::InstanceMismatch { row: irow } => {
                let i = choose|i: int|
                    0 <= i < a2.copies@.len() && copy_touches_instance_row(
                        #[trigger] a2.copies@[i],
                        irow,
                    ) && !copy_ok(a2, public, a2.copies@[i]);
                let cc = a2.copies@[i];
                assert(a1.copies@[i] == cc);
                if !(cell_is(cc.left, col, row) || cell_is(cc.right, col, row)) {
                    assert(cell_value(a2, public, cc.left) == cell_value(a1, public, cc.left));
                    assert(cell_value(a2, public, cc.right) == cell_value(a1, public, cc.right));
                    assert(copy_ok(a1, public, a1.copies@[i]));
                    assert(false);
                }
                assert(0 <= i < a2.copies@.len() && copy_touches_instance_row(a2.copies@[i], irow)
                    && (cell_is(a2.copies@[i].left, col, row) || cell_is(
                    a2.copies@[i].right,
                    col,
                    row,
                )));
            },
        }
    }
}

/// Mutating one assigned advice cell read by an active gate makes that gate
/// fail: the checker reports it. That gate must read the cell exactly once;
/// the grid must hold reduced field elements, so that field addition is
/// cancellative.
pub proof fn lemma_mutation_gate_detected<F: FieldElement>(
    cs: ConstraintSystem,
    a1: Assignment<F>,
    a2: Assignment<F>,
    public: Seq<F>,
    col: int,
    row: int,
    gate: usize,
    grow: usize,
)
    requires
        satisfied(cs, a1, public),
        differs_only_at(a1, a2, col, row),
        advice_all_valid(a1),
        advice_all_valid(a2),
        advice_value_at(a1, col, row) is Some,
        advice_value_at(a2, col, row) is Some,
        advice_value_at(a1, col, row) != advice_value_at(a2, col, row),
        gate < cs.gates@.len(),
        grow < a2.num_rows,
        selector_on(a2, cs.gates@[gate as int].selector as int, grow as int),
        gate_queries_cell_once(cs.gates@[gate as int], grow as int, col, row),
    ensures
        is_violation(cs, a2, public, (Violation::Gate { gate, row: grow })),
{
    let g = cs.gates@[gate as int];
    assert(selector_on(a1, g.selector as int, grow as int) == selector_on(
        a2,
        g.selector as int,
        grow as int,
    ));
    assert(gate_row_ok(a1, cs.gates@[gate as int], grow as int));
    let xa = advice_value_at(a1, g.a.column as int, grow + g.a.rotation);
    let xb = advice_value_at(a1, g.b.column as int, grow + g.b.rotation);
    let xc = advice_value_at(a1, g.c.column as int, grow + g.c.rotation);
    let w0 = advice_value_at(a1, col, row).unwrap();
    let w = advice_value_at(a2, col, row).unwrap();
    if gate_row_ok(a2, g, grow as int) {
        let ha = g.a.column == col && grow + g.a.rotation == row;
        let hb = g.b.column == col && grow + g.b.rotation == row;
        let hc = g.c.column == col && grow + g.c.rotation == row;
        if ha {
            assert(advice_value_at(a2, g.b.column as int, grow + g.b.rotation) == xb);
            assert(advice_value_at(a2, g.c.column as int, grow + g.c.rotation) == xc);
            assert(w0.plus_spec(xb.unwrap()) == xc.unwrap());
            assert(w.plus_spec(xb.unwrap()) == xc.unwrap());
            F::lemma_plus_cancel(w, w0, xb.unwrap());
            assert(false);
        } else if hb {
            assert(advice_value_at(a2, g.a.column as int, grow + g.a.rotation) == xa);
            assert(advice_value_at(a2, g.c.column as int, grow + g.c.rotation) == xc);
            assert(xa.unwrap().plus_spec(w0) == xc.unwrap());
            assert(xa.unwrap().plus_spec(w) == xc.unwrap());
            F::lemma_plus_comm(xa.unwrap(), w0);
            F::lemma_plus_comm(xa.unwrap(), w);
            F::lemma_plus_cancel(w, w0, xa.unwrap());
            assert(false);
        } else {
            assert(hc);
            assert(advice_value_at(a2, g.a.column as int, grow + g.a.rotation) == xa);
            assert(advice_value_at(a2, g.b.column as int, grow + g.b.rotation) == xb);
            assert(xa.unwrap().plus_spec(xb.unwrap()) == w0);
            assert(xa.unwrap().plus_spec(xb.unwrap()) == w);
            assert(false);
        }
    }
    assert(!gate_row_ok(a2, cs.gates@[gate as int], grow as int));
}

/// The violation the checker reports for a failing copy constraint: an
/// instance mismatch at the bound instance row where one side is public, an
/// advice-to-advice mismatch otherwise.
pub open spec fn violation_for_copy<F>(asn: Assignment<F>, index: usize) -> Violation {
    let cc = asn.copies@[index as int];
    if cc.left.kind is Instance {
        Violation::InstanceMismatch { row: cc.left.row }
    } else if cc.right.kind is Instance {
        Violation::InstanceMismatch { row: cc.right.row }
    } else {
        Violation::CopyMismatch { index }
    }
}

/// Mutating one assigned advice cell read by exactly one side of a copy
/// constraint breaks that constraint: the checker reports it.
pub proof fn lemma_mutation_copy_detected<F: FieldElement>(
    cs: ConstraintSystem,
    a1: Assignment<F>,
    a2: Assignment<F>,
    public: Seq<F>,
    col: int,
    row: int,
    index: usize,
)
    requires
        satisfied(cs, a1, public),
        differs_only_at(a1, a2, col, row),
        advice_value_at(a1, col, row) != advice_value_at(a2, col, row),
        index < a2.copies@.len(),
        cell_is(a2.copies@[index as int].left, col, row) <==> !cell_is(
            a2.copies@[index as int].right,
            col,
            row,
        ),
        cell_is(a2.copies@[index as int].left, col, row) || cell_is(
            a2.copies@[index as int].right,
            col,
            row,
        ),
    ensures
        !copy_ok(a2, public, a2.copies@[index as int]),
        is_violation(cs, a2, public, violation_for_copy(a2, index)),
{
    let cc = a2.copies@[index as int];
    assert(a1.copies@[index as int] == cc);
    assert(copy_ok(a1, public, a1.copies@[index as int]));
    if cell_is(cc.left, col, row) {
        assert(cell_value(a1, public, cc.left) == advice_value_at(a1, col, row));
        assert(cell_value(a2, public, cc.left) == advice_value_at(a2, col, row));
        assert(cell_value(a2, public, cc.right) == cell_value(a1, public, cc.right));
        assert(!copy_ok(a2, public, cc));
        if cc.right.kind is Instance {
            assert(copy_touches_instance_row(a2.copies@[index as int], cc.right.row));
            assert(is_violation(cs, a2, public, violation_for_copy(a2, index)));
        }
    } else {
        assert(cell_value(a1, public, cc.right) == advice_value_at(a1, col, row));
        assert(cell_value(a2, public, cc.right) == advice_value_at(a2, col, row));
        assert(cell_value(a2, public, cc.left) == cell_value(a1, public, cc.left));
        assert(!copy_ok(a2, public, cc));
        if cc.left.kind is Instance {
            assert(copy_touches_instance_row(a2.copies@[index as int], cc.left.row));
            assert(is_violation(cs, a2, public, violation_for_copy(a2, index)));
        }
    }
}

/// A selector vector of `n` inactive rows.
fn off_column(n: usize) -> (c: Vec<bool>)
    ensures
        c@.len() == n,
        forall|r: int| 0 <= r < n ==> !c@[r],
{
    let mut c: Vec<bool> = Vec::new();
    for i in 0..n
        invariant
            c@.len() == i,
            forall|r: int| 0 <= r < i ==> !c@[r],
    {
        c.push(false);
    }
    c
}

} // verus!
