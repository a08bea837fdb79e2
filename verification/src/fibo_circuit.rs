//! The three-column Fibonacci circuit: one advice column per operand, one
//! selector-guarded addition gate per row, and three public bindings for the
//! two seeds and the final term.

use vstd::prelude::*;
use crate::field::{fib_value, FieldElement};
use crate::system::{
    advice_value_at, cell_value, check, copy_ok, copy_touches_instance_row, gate_row_ok,
    is_violation, satisfied, selector_on, AdviceColumn, AdviceQuery,
    AssignedCell, CellRef, ColumnKind, ConstraintSystem, CopyConstraint, Error, Gate,
    InstanceColumn, Layouter, Selector, Violation,
};

verus! {

/// The chip's configuration: three advice columns holding the operands of
/// each step, the addition gate's selector, and the instance column for the public
/// values.
#[derive(Clone, Copy, PartialEq, Eq, Structural, Debug)]
pub struct FiboConfig {
    pub col_a: AdviceColumn,
    pub col_b: AdviceColumn,
    pub col_c: AdviceColumn,
    pub selector: Selector,
    pub instance: InstanceColumn,
}

/// The addition gate this chip registers: on active rows, the current row's first two
/// columns sum to its third.
pub open spec fn add_gate(cfg: FiboConfig) -> Gate {
    Gate {
        selector: cfg.selector.index,
        a: AdviceQuery { column: cfg.col_a.index, rotation: 0 },
        b: AdviceQuery { column: cfg.col_b.index, rotation: 0 },
        c: AdviceQuery { column: cfg.col_c.index, rotation: 0 },
    }
}

/// The copy constraint that binds an advice cell to a row of the instance
/// column.
pub open spec fn public_bind(column: usize, row: usize, instance_row: usize) -> CopyConstraint {
    CopyConstraint {
        left: CellRef { kind: ColumnKind::Advice, column, row },
        right: CellRef { kind: ColumnKind::Instance, column: 0, row: instance_row },
    }
}

impl FiboConfig {
    /// The configuration addresses real, distinct columns and a real selector
    /// of the layouter's grid.
    pub open spec fn wf_for<F: FieldElement>(self, lay: Layouter<F>) -> bool {
        &&& self.col_a.index < lay.assignment.advice@.len()
        &&& self.col_b.index < lay.assignment.advice@.len()
        &&& self.col_c.index < lay.assignment.advice@.len()
        &&& self.selector.index < lay.assignment.selectors@.len()
        &&& self.col_a.index != self.col_b.index
        &&& self.col_a.index != self.col_c.index
        &&& self.col_b.index != self.col_c.index
    }
}

/// A handle to a cell this chip has assigned.
#[derive(Clone, Copy, Debug)]
pub struct ACell<F>(pub AssignedCell<F>);

/// The reusable unit owning one gate's configuration and the witness
/// placement operations that keep it satisfied.
pub struct FiboChip {
    pub config: FiboConfig,
}

impl FiboChip {
    /// Wrap a configuration produced by `configure`.
    pub fn construct(config: FiboConfig) -> (r: Self)
        ensures
            r.config == config,
    {
        FiboChip { config }
    }

    /// Declare the addition gate and enable the equality capability on every column
    /// that takes part in a copy constraint. Pure structure: no witness value
    /// is read.
    pub fn configure(
        cs: &mut ConstraintSystem,
        col_a: AdviceColumn,
        col_b: AdviceColumn,
        col_c: AdviceColumn,
        instance: InstanceColumn,
    ) -> (cfg: FiboConfig)
        requires
            col_a.index < old(cs).num_advice(),
            col_b.index < old(cs).num_advice(),
            col_c.index < old(cs).num_advice(),
            instance.index < old(cs).num_instance(),
            old(cs).num_selectors < usize::MAX,
        ensures
            cfg.col_a == col_a,
            cfg.col_b == col_b,
            cfg.col_c == col_c,
            cfg.instance == instance,
            cfg.selector.index == old(cs).num_selectors,
            final(cs).num_selectors == old(cs).num_selectors + 1,
            final(cs).gates@ == old(cs).gates@.push(add_gate(cfg)),
            final(cs).advice_eq@ == old(cs).advice_eq@.update(col_a.index as int, true).update(
                col_b.index as int,
                true,
            ).update(col_c.index as int, true),
            final(cs).instance_eq@ == old(cs).instance_eq@.update(instance.index as int, true),
    {
        let selector = cs.selector();
        cs.enable_equality(col_a);
        cs.enable_equality(col_b);
        cs.enable_equality(col_c);
        cs.enable_instance_equality(instance);
        let cfg = FiboConfig { col_a, col_b, col_c, selector, instance };
        cs.create_gate(
            Gate {
                selector: selector.index,
                a: AdviceQuery { column: col_a.index, rotation: 0 },
                b: AdviceQuery { column: col_b.index, rotation: 0 },
                c: AdviceQuery { column: col_c.index, rotation: 0 },
            },
        );
        cfg
    }

    /// Open a one-row region, enable the selector there, place the two seeds,
    /// and place their field sum next to them. Fails when a seed is still an
    /// unassigned placeholder or the grid is out of rows.
    pub fn assign_first_row<F: FieldElement>(
        &self,
        layouter: &mut Layouter<F>,
        a: Option<F>,
        b: Option<F>,
    ) -> (r: Result<(ACell<F>, ACell<F>, ACell<F>), Error>)
        requires
            old(layouter).inv(),
            self.config.wf_for(*old(layouter)),
        ensures
            final(layouter).inv(),
            final(layouter).instance == old(layouter).instance,
            final(layouter).assignment.num_rows == old(layouter).assignment.num_rows,
            final(layouter).assignment.advice@.len() == old(layouter).assignment.advice@.len(),
            final(layouter).assignment.selectors@.len()
                == old(layouter).assignment.selectors@.len(),
            final(layouter).assignment.copies == old(layouter).assignment.copies,
            match r {
                Ok((ca, cb, cc)) => {
                    &&& a == Some(ca.0.value)
                    &&& b == Some(cb.0.value)
                    &&& cc.0.value == ca.0.value.plus_spec(cb.0.value)
                    &&& ca.0.column == self.config.col_a.index
                    &&& cb.0.column == self.config.col_b.index
                    &&& cc.0.column == self.config.col_c.index
                    &&& ca.0.row == old(layouter).next_row
                    &&& cb.0.row == old(layouter).next_row
                    &&& cc.0.row == old(layouter).next_row
                    &&& old(layouter).next_row + 1 <= old(layouter).assignment.num_rows
                    &&& final(layouter).next_row == old(layouter).next_row + 1
                    &&& forall|s: int, rr: int|
                        selector_on(final(layouter).assignment, s, rr) == (selector_on(
                            old(layouter).assignment,
                            s,
                            rr,
                        ) || (s == self.config.selector.index && rr == old(layouter).next_row))
                    &&& forall|c: int, rr: int|
                        advice_value_at(final(layouter).assignment, c, rr) == (if c
                            == self.config.col_a.index && rr == old(layouter).next_row {
                            Some(ca.0.value)
                        } else if c == self.config.col_b.index && rr == old(layouter).next_row {
                            Some(cb.0.value)
                        } else if c == self.config.col_c.index && rr == old(layouter).next_row {
                            Some(cc.0.value)
                        } else {
                            advice_value_at(old(layouter).assignment, c, rr)
                        })
                },
                Err(e) => {
                    &&& *final(layouter) == *old(layouter)
                    &&& if a is None || b is None {
                        e == Error::Synthesis
                    } else {
                        e == Error::NotEnoughRows && old(layouter).next_row + 1 > old(
                            layouter,
                        ).assignment.num_rows
                    }
                },
            },
    {
        let av = match a {
            Some(v) => v,
            None => {
                return Err(Error::Synthesis);
            },
        };
        let bv = match b {
            Some(v) => v,
            None => {
                return Err(Error::Synthesis);
            },
        };
        let region = match layouter.new_region(1) {
            Ok(rg) => rg,
            Err(e) => {
                return Err(e);
            },
        };
        match layouter.enable_selector(region, self.config.selector, 0) {
            Ok(()) => (),
            Err(e) => {
                proof {
                    assert(false);
                }
                return Err(e);
            },
        };
        let ca = match layouter.assign_advice(region, self.config.col_a, 0, Some(av)) {
            Ok(cell) => cell,
            Err(e) => {
                proof {
                    assert(false);
                }
                return Err(e);
            },
        };
        let cb = match layouter.assign_advice(region, self.config.col_b, 0, Some(bv)) {
            Ok(cell) => cell,
            Err(e) => {
                proof {
                    assert(false);
                }
                return Err(e);
            },
        };
        let cv = av.plus(bv);
        let cc = match layouter.assign_advice(region, self.config.col_c, 0, Some(cv)) {
            Ok(cell) => cell,
            Err(e) => {
                proof {
                    assert(false);
                }
                return Err(e);
            },
        };
        Ok((ACell(ca), ACell(cb), ACell(cc)))
    }

    /// Open a new one-row region, enable the selector, carry the values of
    /// the previous window `(b, c)` into the first two columns, and place
    /// their field sum into the third: the recurrence step.
    pub fn assign_row<F: FieldElement>(
        &self,
        layouter: &mut Layouter<F>,
        prev_b: &ACell<F>,
        prev_c: &ACell<F>,
    ) -> (r: Result<ACell<F>, Error>)
        requires
            old(layouter).inv(),
            self.config.wf_for(*old(layouter)),
        ensures
            final(layouter).inv(),
            final(layouter).instance == old(layouter).instance,
            final(layouter).assignment.num_rows == old(layouter).assignment.num_rows,
            final(layouter).assignment.advice@.len() == old(layouter).assignment.advice@.len(),
            final(layouter).assignment.selectors@.len()
                == old(layouter).assignment.selectors@.len(),
            final(layouter).assignment.copies == old(layouter).assignment.copies,
            match r {
                Ok(cell) => {
                    &&& cell.0.value == prev_b.0.value.plus_spec(prev_c.0.value)
                    &&& cell.0.column == self.config.col_c.index
                    &&& cell.0.row == old(layouter).next_row
                    &&& old(layouter).next_row + 1 <= old(layouter).assignment.num_rows
                    &&& final(layouter).next_row == old(layouter).next_row + 1
                    &&& forall|s: int, rr: int|
                        selector_on(final(layouter).assignment, s, rr) == (selector_on(
                            old(layouter).assignment,
                            s,
                            rr,
                        ) || (s == self.config.selector.index && rr == old(layouter).next_row))
                    &&& forall|c: int, rr: int|
                        advice_value_at(final(layouter).assignment, c, rr) == (if c
                            == self.config.col_a.index && rr == old(layouter).next_row {
                            Some(prev_b.0.value)
                        } else if c == self.config.col_b.index && rr == old(layouter).next_row {
                            Some(prev_c.0.value)
                        } else if c == self.config.col_c.index && rr == old(layouter).next_row {
                            Some(cell.0.value)
                        } else {
                            advice_value_at(old(layouter).assignment, c, rr)
                        })
                },
                Err(e) => {
                    &&& *final(layouter) == *old(layouter)
                    &&& e == Error::NotEnoughRows
                    &&& old(layouter).next_row + 1 > old(layouter).assignment.num_rows
                },
            },
    {
        let region = match layouter.new_region(1) {
            Ok(rg) => rg,
            Err(e) => {
                return Err(e);
            },
        };
        match layouter.enable_selector(region, self.config.selector, 0) {
            Ok(()) => (),
            Err(e) => {
                proof {
                    assert(false);
                }
                return Err(e);
            },
        };
        match layouter.assign_advice(region, self.config.col_a, 0, Some(prev_b.0.value)) {
            Ok(_) => (),
            Err(e) => {
                proof {
                    assert(false);
                }
                return Err(e);
            },
        };
        match layouter.assign_advice(region, self.config.col_b, 0, Some(prev_c.0.value)) {
            Ok(_) => (),
            Err(e) => {
                proof {
                    assert(false);
                }
                return Err(e);
            },
        };
        let cv = prev_b.0.value.plus(prev_c.0.value);
        let cell = match layouter.assign_advice(region, self.config.col_c, 0, Some(cv)) {
            Ok(cell) => cell,
            Err(e) => {
                proof {
                    assert(false);
                }
                return Err(e);
            },
        };
        Ok(ACell(cell))
    }

    /// Bind an assigned cell to a row of the instance column, making its
    /// value publicly checkable.
    pub fn expose_public<F: FieldElement>(
        &self,
        layouter: &mut Layouter<F>,
        cell: &ACell<F>,
        row: usize,
    ) -> (r: Result<(), Error>)
        requires
            old(layouter).inv(),
        ensures
            final(layouter).inv(),
            r is Ok,
            final(layouter).next_row == old(layouter).next_row,
            final(layouter).instance == old(layouter).instance,
            final(layouter).assignment.num_rows == old(layouter).assignment.num_rows,
            final(layouter).assignment.advice == old(layouter).assignment.advice,
            final(layouter).assignment.selectors == old(layouter).assignment.selectors,
            final(layouter).assignment.copies@ == old(layouter).assignment.copies@.push(
                public_bind(cell.0.column, cell.0.row, row),
            ),
    {
        layouter.constrain_instance(&cell.0, row);
        Ok(())
    }
}

/// The circuit: two optional seed witnesses. A structure-only instance (both
/// seeds cleared) derives the constraint system; a populated instance drives
/// witness assignment.
pub struct FiboCircuit<F> {
    pub a: Option<F>,
    pub b: Option<F>,
}

/// The configuration this circuit always builds on a fresh registry.
pub open spec fn circuit_config() -> FiboConfig {
    FiboConfig {
        col_a: AdviceColumn { index: 0 },
        col_b: AdviceColumn { index: 1 },
        col_c: AdviceColumn { index: 2 },
        selector: Selector { index: 0 },
        instance: InstanceColumn { index: 0 },
    }
}

/// The term the circuit exposes at instance row 2 after `steps` recurrence
/// steps: the recurrence's term `steps + 2`.
pub open spec fn expected_output<F: FieldElement>(a: F, b: F, steps: usize) -> F {
    fib_value(a, b, (steps + 2) as nat)
}

/// When a public input vector agrees with everything the circuit binds: the
/// two seeds at instance rows 0 and 1 and the final term at instance row 2.
pub open spec fn public_accepted<F: FieldElement>(a: F, b: F, steps: usize, public: Seq<F>) -> bool {
    &&& public.len() >= 3
    &&& public[0] == a
    &&& public[1] == b
    &&& public[2] == expected_output(a, b, steps)
}

/// Everything synthesis leaves in the layouter: `steps + 1` gate rows whose
/// three columns walk the recurrence, the selector active exactly there, no
/// stray assignment, and the three public bindings.
pub open spec fn synthesized<F: FieldElement>(
    cfg: FiboConfig,
    lay: Layouter<F>,
    a: F,
    b: F,
    steps: usize,
) -> bool {
    let asn = lay.assignment;
    &&& lay.next_row == steps + 1
    &&& forall|s: int, rr: int|
        selector_on(asn, s, rr) == (s == cfg.selector.index && 0 <= rr <= steps)
    &&& forall|rr: int|
        0 <= rr <= steps ==> {
            &&& advice_value_at(asn, cfg.col_a.index as int, rr) == Some(
                fib_value(a, b, rr as nat),
            )
            &&& advice_value_at(asn, cfg.col_b.index as int, rr) == Some(
                fib_value(a, b, (rr + 1) as nat),
            )
            &&& advice_value_at(asn, cfg.col_c.index as int, rr) == Some(
                fib_value(a, b, (rr + 2) as nat),
            )
        }
    &&& forall|c: int, rr: int|
        advice_value_at(asn, c, rr) is Some ==> ((c == cfg.col_a.index || c == cfg.col_b.index
            || c == cfg.col_c.index) && 0 <= rr <= steps)
    &&& asn.copies@ =~= seq![
        public_bind(cfg.col_a.index, 0, 0),
        public_bind(cfg.col_b.index, 0, 1),
        public_bind(cfg.col_c.index, steps, 2),
    ]
}

impl<F: FieldElement> FiboCircuit<F> {
    /// A structure-only clone: both witness seeds cleared.
    pub fn without_witnesses(&self) -> (r: Self)
        ensures
            r.a is None,
            r.b is None,
    {
        FiboCircuit { a: None, b: None }
    }

    /// Declare the three advice columns and the instance column on a fresh
    /// registry and configure the chip on them.
    pub fn configure(cs: &mut ConstraintSystem) -> (cfg: FiboConfig)
        requires
            old(cs).is_fresh(),
        ensures
            cfg == circuit_config(),
            final(cs).advice_eq@ =~= seq![true, true, true],
            final(cs).instance_eq@ =~= seq![true],
            final(cs).num_selectors == 1,
            final(cs).gates@ =~= seq![add_gate(circuit_config())],
    {
        let col_a = cs.advice_column();
        let col_b = cs.advice_column();
        let col_c = cs.advice_column();
        let instance = cs.instance_column();
        let cfg = FiboChip::configure(cs, col_a, col_b, col_c, instance);
        proof {
            assert(cs.advice_eq@ =~= seq![true, true, true]);
            assert(cs.instance_eq@ =~= seq![true]);
            assert(cs.gates@ =~= seq![add_gate(circuit_config())]);
        }
        cfg
    }

    /// Drive the chip once through the fixed sequence: the seed row, `steps`
    /// recurrence steps chaining the window `(b, c)`, and the three public
    /// bindings at instance rows 0, 1 and 2.
    pub fn synthesize(&self, config: &FiboConfig, layouter: &mut Layouter<F>, steps: usize) -> (r:
        Result<(), Error>)
        requires
            old(layouter).fresh(),
            config.wf_for(*old(layouter)),
        ensures
            final(layouter).inv(),
            final(layouter).instance == old(layouter).instance,
            final(layouter).assignment.num_rows == old(layouter).assignment.num_rows,
            final(layouter).assignment.advice@.len() == old(layouter).assignment.advice@.len(),
            final(layouter).assignment.selectors@.len()
                == old(layouter).assignment.selectors@.len(),
            match r {
                Ok(()) => {
                    &&& self.a is Some
                    &&& self.b is Some
                    &&& steps + 1 <= old(layouter).assignment.num_rows
                    &&& synthesized(
                        *config,
                        *final(layouter),
                        self.a.unwrap(),
                        self.b.unwrap(),
                        steps,
                    )
                },
                Err(e) => {
                    &&& *final(layouter) == *old(layouter)
                    &&& if self.a is None || self.b is None {
                        e == Error::Synthesis
                    } else {
                        e == Error::NotEnoughRows && steps + 1 > old(
                            layouter,
                        ).assignment.num_rows
                    }
                },
            },
    {
        let av = match self.a {
            Some(v) => v,
            None => {
                return Err(Error::Synthesis);
            },
        };
        let bv = match self.b {
            Some(v) => v,
            None => {
                return Err(Error::Synthesis);
            },
        };
        if steps >= layouter.assignment.num_rows {
            return Err(Error::NotEnoughRows);
        }
        let chip = FiboChip::construct(*config);
        let (ca, cb, cc) = match chip.assign_first_row(layouter, Some(av), Some(bv)) {
            Ok(t) => t,
            Err(e) => {
                proof {
                    assert(false);
                }
                return Err(e);
            },
        };
        let ghost lay1 = *layouter;
        let mut prev_b = cb;
        let mut prev_c = cc;
        match chip.expose_public(layouter, &ca, 0) {
            Ok(()) => (),
            Err(e) => {
                proof {
                    assert(false);
                }
                return Err(e);
            },
        };
        match chip.expose_public(layouter, &prev_b, 1) {
            Ok(()) => (),
            Err(e) => {
                proof {
                    assert(false);
                }
                return Err(e);
            },
        };
        proof {
            assert(fib_value(av, bv, 0) == av);
            assert(fib_value(av, bv, 1) == bv);
            assert(fib_value(av, bv, 2) == fib_value(av, bv, 0).plus_spec(fib_value(av, bv, 1)));
            assert(layouter.assignment.selectors == lay1.assignment.selectors);
            assert(layouter.assignment.advice == lay1.assignment.advice);
            assert forall|s: int, rr: int|
                selector_on(layouter.assignment, s, rr) == (s == config.selector.index && 0 <= rr
                    <= 0) by {
                assert(selector_on(layouter.assignment, s, rr) == selector_on(
                    lay1.assignment,
                    s,
                    rr,
                ));
                assert(selector_on(lay1.assignment, s, rr) == (selector_on(
                    old(layouter).assignment,
                    s,
                    rr,
                ) || (s == config.selector.index && rr == 0)));
                if 0 <= s < old(layouter).assignment.selectors@.len() && 0 <= rr < old(
                    layouter,
                ).assignment.selectors@[s]@.len() {
                    assert(!old(layouter).assignment.selectors@[s]@[rr]);
                }
                assert(!selector_on(old(layouter).assignment, s, rr));
            }
            assert(advice_value_at(layouter.assignment, config.col_a.index as int, 0)
                == advice_value_at(lay1.assignment, config.col_a.index as int, 0));
            assert(advice_value_at(layouter.assignment, config.col_b.index as int, 0)
                == advice_value_at(lay1.assignment, config.col_b.index as int, 0));
            assert(advice_value_at(layouter.assignment, config.col_c.index as int, 0)
                == advice_value_at(lay1.assignment, config.col_c.index as int, 0));
            assert(advice_value_at(lay1.assignment, config.col_a.index as int, 0) == Some(
                ca.0.value,
            ));
            assert(advice_value_at(lay1.assignment, config.col_b.index as int, 0) == Some(
                cb.0.value,
            ));
            assert(advice_value_at(lay1.assignment, config.col_c.index as int, 0) == Some(
                cc.0.value,
            ));
            assert forall|c: int, rr: int|
                advice_value_at(layouter.assignment, c, rr) is Some implies ((c
                    == config.col_a.index || c == config.col_b.index || c == config.col_c.index)
                    && 0 <= rr <= 0) by {
                assert(advice_value_at(layouter.assignment, c, rr) == advice_value_at(
                    lay1.assignment,
                    c,
                    rr,
                ));
                if !(c == config.col_a.index && rr == 0) && !(c == config.col_b.index && rr == 0)
                    && !(c == config.col_c.index && rr == 0) {
                    if 0 <= c < old(layouter).assignment.advice@.len() && 0 <= rr < old(
                        layouter,
                    ).assignment.advice@[c]@.len() {
                        assert(old(layouter).assignment.advice@[c]@[rr] is None);
                    }
                    assert(advice_value_at(old(layouter).assignment, c, rr) is None);
                }
            }
        }
        let mut i: usize = 0;
        while i < steps
            invariant
                layouter.inv(),
                config.wf_for(*layouter),
                chip.config == *config,
                i <= steps,
                steps + 1 <= layouter.assignment.num_rows,
                layouter.next_row == i + 1,
                layouter.instance == old(layouter).instance,
                layouter.assignment.num_rows == old(layouter).assignment.num_rows,
                layouter.assignment.advice@.len() == old(layouter).assignment.advice@.len(),
                layouter.assignment.selectors@.len() == old(layouter).assignment.selectors@.len(),
                prev_b.0.value == fib_value(av, bv, (i + 1) as nat),
                prev_c.0.value == fib_value(av, bv, (i + 2) as nat),
                prev_c.0.column == config.col_c.index,
                prev_c.0.row == i,
                forall|s: int, rr: int|
                    selector_on(layouter.assignment, s, rr) == (s == config.selector.index && 0
                        <= rr <= i),
                forall|rr: int|
                    0 <= rr <= i ==> {
                        &&& advice_value_at(layouter.assignment, config.col_a.index as int, rr)
                            == Some(fib_value(av, bv, rr as nat))
                        &&& advice_value_at(layouter.assignment, config.col_b.index as int, rr)
                            == Some(fib_value(av, bv, (rr + 1) as nat))
                        &&& advice_value_at(layouter.assignment, config.col_c.index as int, rr)
                            == Some(fib_value(av, bv, (rr + 2) as nat))
                    },
                forall|c: int, rr: int|
                    advice_value_at(layouter.assignment, c, rr) is Some ==> ((c
                        == config.col_a.index || c == config.col_b.index || c
                        == config.col_c.index) && 0 <= rr <= i),
                layouter.assignment.copies@ =~= seq![
                    public_bind(config.col_a.index, 0, 0),
                    public_bind(config.col_b.index, 0, 1),
                ],
            decreases steps - i,
        {
            let ghost lstart = *layouter;
            let cnew = match chip.assign_row(layouter, &prev_b, &prev_c) {
                Ok(cell) => cell,
                Err(e) => {
                    proof {
                        assert(false);
                    }
                    return Err(e);
                },
            };
            proof {
                assert(fib_value(av, bv, (i + 3) as nat) == fib_value(av, bv, (i + 1) as nat)
                    .plus_spec(fib_value(av, bv, (i + 2) as nat)));
                assert forall|s: int, rr: int|
                    selector_on(layouter.assignment, s, rr) == (s == config.selector.index && 0
                        <= rr <= i + 1) by {
                    assert(selector_on(lstart.assignment, s, rr) == (s == config.selector.index
                        && 0 <= rr <= i));
                    assert(selector_on(layouter.assignment, s, rr) == (selector_on(
                        lstart.assignment,
                        s,
                        rr,
                    ) || (s == config.selector.index && rr == i + 1)));
                }
                assert forall|rr: int|
                    0 <= rr <= i + 1 implies {
                    &&& advice_value_at(layouter.assignment, config.col_a.index as int, rr)
                        == Some(fib_value(av, bv, rr as nat))
                    &&& advice_value_at(layouter.assignment, config.col_b.index as int, rr)
                        == Some(fib_value(av, bv, (rr + 1) as nat))
                    &&& advice_value_at(layouter.assignment, config.col_c.index as int, rr)
                        == Some(fib_value(av, bv, (rr + 2) as nat))
                } by {
                    if rr <= i {
                        assert(advice_value_at(lstart.assignment, config.col_a.index as int, rr)
                            == Some(fib_value(av, bv, rr as nat)));
                        assert(advice_value_at(lstart.assignment, config.col_b.index as int, rr)
                            == Some(fib_value(av, bv, (rr + 1) as nat)));
                        assert(advice_value_at(lstart.assignment, config.col_c.index as int, rr)
                            == Some(fib_value(av, bv, (rr + 2) as nat)));
                    }
                    assert(advice_value_at(layouter.assignment, config.col_a.index as int, rr)
                        is Some);
                    assert(advice_value_at(layouter.assignment, config.col_b.index as int, rr)
                        is Some);
                    assert(advice_value_at(layouter.assignment, config.col_c.index as int, rr)
                        is Some);
                }
                assert forall|c: int, rr: int|
                    advice_value_at(layouter.assignment, c, rr) is Some implies ((c
                        == config.col_a.index || c == config.col_b.index || c
                        == config.col_c.index) && 0 <= rr <= i + 1) by {
                    assert(advice_value_at(layouter.assignment, c, rr) == (if c
                        == config.col_a.index && rr == i + 1 {
                        Some(prev_b.0.value)
                    } else if c == config.col_b.index && rr == i + 1 {
                        Some(prev_c.0.value)
                    } else if c == config.col_c.index && rr == i + 1 {
                        Some(cnew.0.value)
                    } else {
                        advice_value_at(lstart.assignment, c, rr)
                    }));
                }
                assert(layouter.assignment.copies@ =~= seq![
                    public_bind(config.col_a.index, 0, 0),
                    public_bind(config.col_b.index, 0, 1),
                ]);
            }
            prev_b = prev_c;
            prev_c = cnew;
            i = i + 1;
        }
        let ghost lend = *layouter;
        match chip.expose_public(layouter, &prev_c, 2) {
            Ok(()) => (),
            Err(e) => {
                proof {
                    assert(false);
                }
                return Err(e);
            },
        };
        proof {
            assert(layouter.assignment.copies@ =~= seq![
                public_bind(config.col_a.index, 0, 0),
                public_bind(config.col_b.index, 0, 1),
                public_bind(config.col_c.index, steps, 2),
            ]);
            assert(layouter.assignment.selectors == lend.assignment.selectors);
            assert(layouter.assignment.advice == lend.assignment.advice);
            assert forall|s: int, rr: int|
                selector_on(layouter.assignment, s, rr) == (s == config.selector.index && 0 <= rr
                    <= steps) by {
                assert(selector_on(layouter.assignment, s, rr) == selector_on(
                    lend.assignment,
                    s,
                    rr,
                ));
            }
            assert forall|rr: int|
                0 <= rr <= steps implies {
                &&& advice_value_at(layouter.assignment, config.col_a.index as int, rr) == Some(
                    fib_value(av, bv, rr as nat),
                )
                &&& advice_value_at(layouter.assignment, config.col_b.index as int, rr) == Some(
                    fib_value(av, bv, (rr + 1) as nat),
                )
                &&& advice_value_at(layouter.assignment, config.col_c.index as int, rr) == Some(
                    fib_value(av, bv, (rr + 2) as nat),
                )
            } by {
                assert(advice_value_at(layouter.assignment, config.col_a.index as int, rr)
                    == advice_value_at(lend.assignment, config.col_a.index as int, rr));
                assert(advice_value_at(layouter.assignment, config.col_b.index as int, rr)
                    == advice_value_at(lend.assignment, config.col_b.index as int, rr));
                assert(advice_value_at(layouter.assignment, config.col_c.index as int, rr)
                    == advice_value_at(lend.assignment, config.col_c.index as int, rr));
            }
            assert forall|c: int, rr: int|
                advice_value_at(layouter.assignment, c, rr) is Some implies ((c
                    == config.col_a.index || c == config.col_b.index || c == config.col_c.index)
                    && 0 <= rr <= steps) by {
                assert(advice_value_at(layouter.assignment, c, rr) == advice_value_at(
                    lend.assignment,
                    c,
                    rr,
                ));
            }
        }
        Ok(())
    }
}

/// The violation report naming an instance row.
pub open spec fn instance_mismatch(row: usize) -> Violation {
    Violation::InstanceMismatch { row }
}

/// Configure the circuit on a fresh constraint system, synthesize it with
/// `steps` recurrence steps on a grid of `max_rows` rows, and run the
/// checker against the given public input vector. Succeeds exactly when both
/// seeds are present and the rows fit; the report is then empty exactly when
/// the public input matches the two seeds and the expected final term, and
/// any violation is an instance mismatch at rows 0 to 2 — never a gate
/// failure.
pub fn mock_run<F: FieldElement>(
    circuit: &FiboCircuit<F>,
    max_rows: usize,
    steps: usize,
    public: Vec<F>,
) -> (r: Result<Vec<Violation>, Error>)
    ensures
        match r {
            Ok(out) => {
                &&& circuit.a is Some
                &&& circuit.b is Some
                &&& steps < max_rows
                &&& (out@.len() == 0 <==> public_accepted(
                    circuit.a.unwrap(),
                    circuit.b.unwrap(),
                    steps,
                    public@,
                ))
                &&& forall|v: Violation| #[trigger] out@.contains(v) ==> v is InstanceMismatch
                &&& (out@.contains(instance_mismatch(0)) <==> !(public@.len() > 0 && public@[0]
                    == circuit.a.unwrap()))
                &&& (out@.contains(instance_mismatch(1)) <==> !(public@.len() > 1 && public@[1]
                    == circuit.b.unwrap()))
                &&& (out@.contains(instance_mismatch(2)) <==> !(public@.len() > 2 && public@[2]
                    == expected_output(circuit.a.unwrap(), circuit.b.unwrap(), steps)))
                &&& forall|v: Violation| #[trigger] out@.contains(v) ==> (v == instance_mismatch(0)
                    || v == instance_mismatch(1) || v == instance_mismatch(2))
            },
            Err(e) => {
                if circuit.a is None || circuit.b is None {
                    e == Error::Synthesis
                } else {
                    e == Error::NotEnoughRows && steps >= max_rows
                }
            },
        },
{
    let mut cs = ConstraintSystem::new();
    let config = FiboCircuit::<F>::configure(&mut cs);
    let mut layouter = Layouter::<F>::new(&cs, max_rows, public);
    match circuit.synthesize(&config, &mut layouter, steps) {
        Ok(()) => (),
        Err(e) => {
            return Err(e);
        },
    };
    let out = check(&cs, &layouter.assignment, &layouter.instance);
    proof {
        lemma_mock_run_report(
            cs,
            layouter,
            config,
            circuit.a.unwrap(),
            circuit.b.unwrap(),
            steps,
            out@,
        );
    }
    Ok(out)
}

/// What the checker's report can hold after this circuit's synthesis: only
/// instance mismatches at the three bound rows, each present exactly when
/// the public input disagrees there.
proof fn lemma_mock_run_report<F: FieldElement>(
    cs: ConstraintSystem,
    lay: Layouter<F>,
    cfg: FiboConfig,
    a: F,
    b: F,
    steps: usize,
    out: Seq<Violation>,
)
    requires
        cfg == circuit_config(),
        cs.gates@ =~= seq![add_gate(circuit_config())],
        lay.assignment.num_rows >= steps + 1,
        synthesized(cfg, lay, a, b, steps),
        forall|v: Violation| #[trigger]
            out.contains(v) <==> is_violation(cs, lay.assignment, lay.instance@, v),
        (out.len() == 0) <==> satisfied(cs, lay.assignment, lay.instance@),
    ensures
        out.len() == 0 <==> public_accepted(a, b, steps, lay.instance@),
        forall|v: Violation| #[trigger] out.contains(v) ==> v is InstanceMismatch,
        out.contains(instance_mismatch(0)) <==> !(lay.instance@.len() > 0 && lay.instance@[0]
            == a),
        out.contains(instance_mismatch(1)) <==> !(lay.instance@.len() > 1 && lay.instance@[1]
            == b),
        out.contains(instance_mismatch(2)) <==> !(lay.instance@.len() > 2 && lay.instance@[2]
            == expected_output(a, b, steps)),
        forall|v: Violation| #[trigger] out.contains(v) ==> (v == instance_mismatch(0) || v
            == instance_mismatch(1) || v == instance_mismatch(2)),
{
    let asn = lay.assignment;
    let public = lay.instance@;
    let g = add_gate(circuit_config());
    // No gate ever fails: on active rows the columns hold consecutive
    // recurrence terms, whose defining equation is exactly what active rows check.
    assert forall|row: int| 0 <= row < asn.num_rows implies gate_row_ok(asn, g, row) by {
        if selector_on(asn, g.selector as int, row) {
            assert(0 <= row <= steps);
            assert(fib_value(a, b, (row + 2) as nat) == fib_value(a, b, row as nat).plus_spec(
                fib_value(a, b, (row + 1) as nat),
            ));
        }
    }
    let bind0 = public_bind(cfg.col_a.index, 0, 0);
    let bind1 = public_bind(cfg.col_b.index, 0, 1);
    let bind2 = public_bind(cfg.col_c.index, steps, 2);
    assert(asn.copies@.len() == 3);
    assert(asn.copies@[0] == bind0 && asn.copies@[1] == bind1 && asn.copies@[2] == bind2);
    assert(fib_value(a, b, 0) == a && fib_value(a, b, 1) == b);
    assert(cell_value(asn, public, bind0.left) == Some(a));
    assert(cell_value(asn, public, bind1.left) == Some(b));
    assert(cell_value(asn, public, bind2.left) == Some(expected_output(a, b, steps)));
    let ok0 = public.len() > 0 && public[0] == a;
    let ok1 = public.len() > 1 && public[1] == b;
    let ok2 = public.len() > 2 && public[2] == expected_output(a, b, steps);
    assert(copy_ok(asn, public, bind0) == ok0);
    assert(copy_ok(asn, public, bind1) == ok1);
    assert(copy_ok(asn, public, bind2) == ok2);
    // Every valid violation is one of the three instance mismatches: the
    // gates never fail, and every declared copy binds to the instance column.
    assert forall|v: Violation| is_violation(cs, asn, public, v) implies ((v == instance_mismatch(
        0,
    ) && !ok0) || (v == instance_mismatch(1) && !ok1) || (v == instance_mismatch(2)
        && !ok2)) by {
        match v {
            Violation::Gate { gate, row } => {
                assert(cs.gates@[gate as int] == g);
                assert(gate_row_ok(asn, g, row as int));
                assert(false);
            },
            Violation::CopyMismatch { index } => {
                assert(asn.copies@[index as int].right.kind is Instance);
                assert(false);
            },
            Violation::InstanceMismatch { row } => {
                let i = choose|i: int|
                    0 <= i < asn.copies@.len() && copy_touches_instance_row(
                        #[trigger] asn.copies@[i],
                        row,
                    ) && !copy_ok(asn, public, asn.copies@[i]);
                if i == 0 {
                    assert(row == 0 && !ok0);
                } else if i == 1 {
                    assert(row == 1 && !ok1);
                } else {
                    assert(i == 2);
                    assert(row == 2 && !ok2);
                }
            },
        }
    }
    // And each mismatch really is reported when the public input disagrees.
    if !ok0 {
        assert(copy_touches_instance_row(asn.copies@[0], 0));
        assert(is_violation(cs, asn, public, instance_mismatch(0)));
    }
    if !ok1 {
        assert(copy_touches_instance_row(asn.copies@[1], 1));
        assert(is_violation(cs, asn, public, instance_mismatch(1)));
    }
    if !ok2 {
        assert(copy_touches_instance_row(asn.copies@[2], 2));
        assert(is_violation(cs, asn, public, instance_mismatch(2)));
    }
    // The report is empty exactly when the public input is accepted.
    if ok0 && ok1 && ok2 {
        assert forall|i: int| 0 <= i < asn.copies@.len() implies copy_ok(
            asn,
            public,
            #[trigger] asn.copies@[i],
        ) by {
            if i == 0 {
            } else if i == 1 {
            } else {
                assert(i == 2);
            }
        }
        assert forall|gi: int, row: int|
            0 <= gi < cs.gates@.len() && 0 <= row < asn.num_rows implies #[trigger] gate_row_ok(
            asn,
            cs.gates@[gi],
            row,
        ) by {
            assert(cs.gates@[gi] == g);
        }
        assert(satisfied(cs, asn, public));
    } else {
        assert(out.len() > 0);
    }
    assert(out.len() == 0 <==> public_accepted(a, b, steps, public));
}

} // verus!
