//! The single-column Fibonacci circuit: one advice column reused across
//! rows, a gate that relates three consecutive rows, seeds taken from the
//! public input, and the final term bound back to it. This trades rows for
//! columns against the three-column variant.

use vstd::prelude::*;
use crate::field::{fib_value, FieldElement};
use crate::fibo_circuit::{instance_mismatch, public_bind};
use crate::system::{
    advice_value_at, cell_value, check, copy_ok, copy_touches_instance_row, gate_row_ok,
    is_violation, satisfied, selector_on, AdviceColumn, AdviceQuery, AssignedCell, ConstraintSystem,
    Error, Gate, InstanceColumn, Layouter, Selector, Violation,
};

verus! {

/// The chip's configuration: a single advice column, the addition gate's selector,
/// and the instance column.
#[derive(Clone, Copy, PartialEq, Eq, Structural, Debug)]
pub struct FiboConfig {
    pub advice: AdviceColumn,
    pub selector: Selector,
    pub instance: InstanceColumn,
}

/// The addition gate this chip registers: on active rows, the advice values of the
/// current and next row sum to the one two rows below.
pub open spec fn add_gate(cfg: FiboConfig) -> Gate {
    Gate {
        selector: cfg.selector.index,
        a: AdviceQuery { column: cfg.advice.index, rotation: 0 },
        b: AdviceQuery { column: cfg.advice.index, rotation: 1 },
        c: AdviceQuery { column: cfg.advice.index, rotation: 2 },
    }
}

impl FiboConfig {
    /// The configuration addresses a real column and selector of the
    /// layouter's grid.
    pub open spec fn wf_for<F: FieldElement>(self, lay: Layouter<F>) -> bool {
        &&& self.advice.index < lay.assignment.advice@.len()
        &&& self.selector.index < lay.assignment.selectors@.len()
    }
}

/// A handle to a cell this chip has assigned.
#[derive(Clone, Copy, Debug)]
pub struct ACell<F>(pub AssignedCell<F>);

/// The reusable unit owning one gate's configuration and the witness
/// placement operation that keeps it satisfied.
pub struct FiboChip {
    pub config: FiboConfig,
}

/// Everything the chip's `assign` leaves in the layouter: `nrows` advice
/// cells walking the recurrence from the two public seeds, the selector
/// active on row 0 and on the interior rows that close before the window
/// leaves the grid, no stray assignment, and the three public bindings.
pub open spec fn synthesized<F: FieldElement>(cfg: FiboConfig, lay: Layouter<F>, nrows: usize) -> bool {
    let asn = lay.assignment;
    let p0 = lay.instance@[0];
    let p1 = lay.instance@[1];
    &&& lay.instance@.len() >= 2
    &&& lay.next_row == nrows
    &&& forall|s: int, rr: int|
        selector_on(asn, s, rr) == (s == cfg.selector.index && (rr == 0 || (2 <= rr < nrows
            - 2)))
    &&& forall|rr: int|
        0 <= rr < nrows ==> advice_value_at(asn, cfg.advice.index as int, rr) == Some(
            fib_value(p0, p1, rr as nat),
        )
    &&& forall|c: int, rr: int|
        advice_value_at(asn, c, rr) is Some ==> (c == cfg.advice.index && 0 <= rr < nrows)
    &&& asn.copies@ =~= seq![
        public_bind(cfg.advice.index, 0, 0),
        public_bind(cfg.advice.index, 1, 1),
        public_bind(cfg.advice.index, (nrows - 1) as usize, 2),
    ]
}

impl FiboChip {
    /// Wrap a configuration produced by `configure`.
    pub fn construct(config: FiboConfig) -> (r: Self)
        ensures
            r.config == config,
    {
        FiboChip { config }
    }

    /// Declare the addition gate over three consecutive rows of the one advice column
    /// and enable the equality capability on both columns. Pure structure.
    pub fn configure(
        cs: &mut ConstraintSystem,
        advice: AdviceColumn,
        instance: InstanceColumn,
    ) -> (cfg: FiboConfig)
        requires
            advice.index < old(cs).num_advice(),
            instance.index < old(cs).num_instance(),
            old(cs).num_selectors < usize::MAX,
        ensures
            cfg.advice == advice,
            cfg.instance == instance,
            cfg.selector.index == old(cs).num_selectors,
            final(cs).num_selectors == old(cs).num_selectors + 1,
            final(cs).gates@ == old(cs).gates@.push(add_gate(cfg)),
            final(cs).advice_eq@ == old(cs).advice_eq@.update(advice.index as int, true),
            final(cs).instance_eq@ == old(cs).instance_eq@.update(instance.index as int, true),
    {
        let selector = cs.selector();
        cs.enable_equality(advice);
        cs.enable_instance_equality(instance);
        let cfg = FiboConfig { advice, selector, instance };
        cs.create_gate(
            Gate {
                selector: selector.index,
                a: AdviceQuery { column: advice.index, rotation: 0 },
                b: AdviceQuery { column: advice.index, rotation: 1 },
                c: AdviceQuery { column: advice.index, rotation: 2 },
            },
        );
        cfg
    }

    /// Seed rows 0 and 1 of the advice column from instance rows 0 and 1,
    /// fill each later row with the field sum of the two rows before it,
    /// enabling the selector wherever the three-row window stays in range,
    /// and bind the last cell to instance row 2. Returns that final cell.
    pub fn assign<F: FieldElement>(&self, layouter: &mut Layouter<F>, nrows: usize) -> (r: Result<
        ACell<F>,
        Error,
    >)
        requires
            old(layouter).fresh(),
            self.config.wf_for(*old(layouter)),
            nrows >= 3,
        ensures
            final(layouter).inv(),
            final(layouter).instance == old(layouter).instance,
            final(layouter).assignment.num_rows == old(layouter).assignment.num_rows,
            match r {
                Ok(cell) => {
                    &&& old(layouter).instance@.len() >= 2
                    &&& nrows <= old(layouter).assignment.num_rows
                    &&& cell.0.column == self.config.advice.index
                    &&& cell.0.row == nrows - 1
                    &&& cell.0.value == fib_value(
                        old(layouter).instance@[0],
                        old(layouter).instance@[1],
                        (nrows - 1) as nat,
                    )
                    &&& synthesized(self.config, *final(layouter), nrows)
                },
                Err(e) => {
                    &&& *final(layouter) == *old(layouter)
                    &&& if old(layouter).instance@.len() < 2 {
                        e == Error::InvalidQuery
                    } else {
                        e == Error::NotEnoughRows && nrows > old(layouter).assignment.num_rows
                    }
                },
            },
    {
        if layouter.instance.len() < 2 {
            return Err(Error::InvalidQuery);
        }
        let region = match layouter.new_region(nrows) {
            Ok(rg) => rg,
            Err(e) => {
                return Err(e);
            },
        };
        match layouter.enable_selector(region, self.config.selector, 0) {
            Ok(()) => (),
            Err(e) => {
                proof {
                    assert(false);
                }
                return Err(e);
            },
        };
        let ghost laya = *layouter;
        let mut a_cell = match layouter.assign_advice_from_instance(
            region,
            0,
            self.config.advice,
            0,
        ) {
            Ok(cell) => cell,
            Err(e) => {
                proof {
                    assert(false);
                }
                return Err(e);
            },
        };
        let ghost layb = *layouter;
        let mut b_cell = match layouter.assign_advice_from_instance(
            region,
            1,
            self.config.advice,
            1,
        ) {
            Ok(cell) => cell,
            Err(e) => {
                proof {
                    assert(false);
                }
                return Err(e);
            },
        };
        let ghost p0 = layouter.instance@[0];
        let ghost p1 = layouter.instance@[1];
        proof {
            assert(fib_value(p0, p1, 0) == p0);
            assert(fib_value(p0, p1, 1) == b_cell.value);
            assert forall|s: int, rr: int|
                selector_on(layouter.assignment, s, rr) == (s == self.config.selector.index && rr
                    == 0) by {
                assert(selector_on(layouter.assignment, s, rr) == selector_on(
                    layb.assignment,
                    s,
                    rr,
                ));
                assert(selector_on(layb.assignment, s, rr) == selector_on(laya.assignment, s, rr));
                if 0 <= s < old(layouter).assignment.selectors@.len() && 0 <= rr < old(
                    layouter,
                ).assignment.selectors@[s]@.len() {
                    assert(!old(layouter).assignment.selectors@[s]@[rr]);
                }
                assert(!selector_on(old(layouter).assignment, s, rr));
            }
            assert forall|c: int, rr: int|
                advice_value_at(layouter.assignment, c, rr) is Some implies (c
                    == self.config.advice.index && 0 <= rr < 2) by {
                if !(c == self.config.advice.index && (rr == 0 || rr == 1)) {
                    assert(advice_value_at(layouter.assignment, c, rr) == advice_value_at(
                        layb.assignment,
                        c,
                        rr,
                    ));
                    assert(advice_value_at(layb.assignment, c, rr) == advice_value_at(
                        laya.assignment,
                        c,
                        rr,
                    ));
                    if 0 <= c < old(layouter).assignment.advice@.len() && 0 <= rr < old(
                        layouter,
                    ).assignment.advice@[c]@.len() {
                        assert(old(layouter).assignment.advice@[c]@[rr] is None);
                    }
                    assert(advice_value_at(old(layouter).assignment, c, rr) is None);
                }
            }
            assert(advice_value_at(layouter.assignment, self.config.advice.index as int, 0)
                == Some(p0));
            assert(advice_value_at(layouter.assignment, self.config.advice.index as int, 1)
                == Some(p1));
        }
        let mut i: usize = 2;
        while i < nrows
            invariant
                layouter.inv(),
                self.config.wf_for(*layouter),
                3 <= nrows,
                2 <= i <= nrows,
                nrows <= layouter.assignment.num_rows,
                layouter.assignment.num_rows == old(layouter).assignment.num_rows,
                layouter.next_row == nrows,
                region.start == 0,
                region.rows == nrows,
                layouter.instance == old(layouter).instance,
                layouter.instance@.len() >= 2,
                p0 == layouter.instance@[0],
                p1 == layouter.instance@[1],
                layouter.assignment.advice@.len() == old(layouter).assignment.advice@.len(),
                layouter.assignment.selectors@.len() == old(layouter).assignment.selectors@.len(),
                a_cell.column == self.config.advice.index,
                a_cell.row == i - 2,
                a_cell.value == fib_value(p0, p1, (i - 2) as nat),
                b_cell.column == self.config.advice.index,
                b_cell.row == i - 1,
                b_cell.value == fib_value(p0, p1, (i - 1) as nat),
                forall|s: int, rr: int|
                    selector_on(layouter.assignment, s, rr) == (s == self.config.selector.index
                        && (rr == 0 || (2 <= rr < i && rr < nrows - 2))),
                forall|rr: int|
                    0 <= rr < i ==> advice_value_at(
                        layouter.assignment,
                        self.config.advice.index as int,
                        rr,
                    ) == Some(fib_value(p0, p1, rr as nat)),
                forall|c: int, rr: int|
                    advice_value_at(layouter.assignment, c, rr) is Some ==> (c
                        == self.config.advice.index && 0 <= rr < i),
                layouter.assignment.copies@ =~= seq![
                    public_bind(self.config.advice.index, 0, 0),
                    public_bind(self.config.advice.index, 1, 1),
                ],
            decreases nrows - i,
        {
            let ghost l0 = *layouter;
            if i < nrows - 2 {
                match layouter.enable_selector(region, self.config.selector, i) {
                    Ok(()) => (),
                    Err(e) => {
                        proof {
                            assert(false);
                        }
                        return Err(e);
                    },
                };
            }
            let ghost l1 = *layouter;
            let val = a_cell.value.plus(b_cell.value);
            proof {
                assert(advice_value_at(l1.assignment, self.config.advice.index as int, i as int)
                    == advice_value_at(l0.assignment, self.config.advice.index as int, i as int));
            }
            let c_cell = match layouter.assign_advice(region, self.config.advice, i, Some(val)) {
                Ok(cell) => cell,
                Err(e) => {
                    proof {
                        assert(false);
                    }
                    return Err(e);
                },
            };
            proof {
                assert(fib_value(p0, p1, i as nat) == fib_value(p0, p1, (i - 2) as nat).plus_spec(
                    fib_value(p0, p1, (i - 1) as nat),
                ));
                assert forall|s: int, rr: int|
                    selector_on(layouter.assignment, s, rr) == (s == self.config.selector.index
                        && (rr == 0 || (2 <= rr < i + 1 && rr < nrows - 2))) by {
                    assert(selector_on(layouter.assignment, s, rr) == selector_on(
                        l1.assignment,
                        s,
                        rr,
                    ));
                    if i < nrows - 2 {
                        assert(selector_on(l1.assignment, s, rr) == (selector_on(
                            l0.assignment,
                            s,
                            rr,
                        ) || (s == self.config.selector.index && rr == i)));
                    }
                    assert(selector_on(l0.assignment, s, rr) == (s == self.config.selector.index
                        && (rr == 0 || (2 <= rr < i && rr < nrows - 2))));
                }
                assert forall|rr: int|
                    0 <= rr < i + 1 implies advice_value_at(
                    layouter.assignment,
                    self.config.advice.index as int,
                    rr,
                ) == Some(fib_value(p0, p1, rr as nat)) by {
                    if rr < i {
                        assert(advice_value_at(
                            l1.assignment,
                            self.config.advice.index as int,
                            rr,
                        ) == advice_value_at(l0.assignment, self.config.advice.index as int, rr));
                        assert(advice_value_at(
                            l0.assignment,
                            self.config.advice.index as int,
                            rr,
                        ) == Some(fib_value(p0, p1, rr as nat)));
                    }
                }
                assert forall|c: int, rr: int|
                    advice_value_at(layouter.assignment, c, rr) is Some implies (c
                        == self.config.advice.index && 0 <= rr < i + 1) by {
                    if !(c == self.config.advice.index && rr == i) {
                        assert(advice_value_at(layouter.assignment, c, rr) == advice_value_at(
                            l1.assignment,
                            c,
                            rr,
                        ));
                        assert(advice_value_at(l1.assignment, c, rr) == advice_value_at(
                            l0.assignment,
                            c,
                            rr,
                        ));
                    }
                }
                assert(layouter.assignment.copies@ =~= seq![
                    public_bind(self.config.advice.index, 0, 0),
                    public_bind(self.config.advice.index, 1, 1),
                ]);
            }
            a_cell = b_cell;
            b_cell = c_cell;
            i = i + 1;
        }
        let ghost lend = *layouter;
        layouter.constrain_instance(&b_cell, 2);
        proof {
            assert(layouter.assignment.copies@ =~= seq![
                public_bind(self.config.advice.index, 0, 0),
                public_bind(self.config.advice.index, 1, 1),
                public_bind(self.config.advice.index, (nrows - 1) as usize, 2),
            ]);
            assert forall|s: int, rr: int|
                selector_on(layouter.assignment, s, rr) == (s == self.config.selector.index && (rr
                    == 0 || (2 <= rr < nrows - 2))) by {
                assert(selector_on(layouter.assignment, s, rr) == selector_on(
                    lend.assignment,
                    s,
                    rr,
                ));
            }
            assert forall|rr: int|
                0 <= rr < nrows implies advice_value_at(
                layouter.assignment,
                self.config.advice.index as int,
                rr,
            ) == Some(fib_value(p0, p1, rr as nat)) by {
                assert(advice_value_at(layouter.assignment, self.config.advice.index as int, rr)
                    == advice_value_at(lend.assignment, self.config.advice.index as int, rr));
            }
            assert forall|c: int, rr: int|
                advice_value_at(layouter.assignment, c, rr) is Some implies (c
                    == self.config.advice.index && 0 <= rr < nrows) by {
                assert(advice_value_at(layouter.assignment, c, rr) == advice_value_at(
                    lend.assignment,
                    c,
                    rr,
                ));
            }
        }
        Ok(ACell(b_cell))
    }
}

/// The circuit: two optional seed witnesses, kept for interface parity with
/// the three-column variant; this formulation reads its seeds from the
/// public input instead.
pub struct FiboCircuit<F> {
    pub a: Option<F>,
    pub b: Option<F>,
}

/// The configuration this circuit always builds on a fresh registry.
pub open spec fn circuit_config() -> FiboConfig {
    FiboConfig {
        advice: AdviceColumn { index: 0 },
        selector: Selector { index: 0 },
        instance: InstanceColumn { index: 0 },
    }
}

/// The term the circuit exposes at instance row 2 with `nrows` total rows:
/// the recurrence's term `nrows - 1`, seeded from the first two public
/// values.
pub open spec fn expected_output<F: FieldElement>(p0: F, p1: F, nrows: usize) -> F {
    fib_value(p0, p1, (nrows - 1) as nat)
}

impl<F: FieldElement> FiboCircuit<F> {
    /// A structure-only clone: both witness seeds cleared.
    pub fn without_witnesses(&self) -> (r: Self)
        ensures
            r.a is None,
            r.b is None,
    {
        FiboCircuit { a: None, b: None }
    }

    /// Declare the advice and instance columns on a fresh registry and
    /// configure the chip on them.
    pub fn configure(cs: &mut ConstraintSystem) -> (cfg: FiboConfig)
        requires
            old(cs).is_fresh(),
        ensures
            cfg == circuit_config(),
            final(cs).advice_eq@ =~= seq![true],
            final(cs).instance_eq@ =~= seq![true],
            final(cs).num_selectors == 1,
            final(cs).gates@ =~= seq![add_gate(circuit_config())],
    {
        let advice = cs.advice_column();
        let instance = cs.instance_column();
        let cfg = FiboChip::configure(cs, advice, instance);
        proof {
            assert(cs.advice_eq@ =~= seq![true]);
            assert(cs.instance_eq@ =~= seq![true]);
            assert(cs.gates@ =~= seq![add_gate(circuit_config())]);
        }
        cfg
    }

    /// Drive the chip once over `nrows` rows.
    pub fn synthesize(&self, config: &FiboConfig, layouter: &mut Layouter<F>, nrows: usize) -> (r:
        Result<(), Error>)
        requires
            old(layouter).fresh(),
            config.wf_for(*old(layouter)),
            nrows >= 3,
        ensures
            final(layouter).inv(),
            final(layouter).instance == old(layouter).instance,
            final(layouter).assignment.num_rows == old(layouter).assignment.num_rows,
            match r {
                Ok(()) => {
                    &&& old(layouter).instance@.len() >= 2
                    &&& nrows <= old(layouter).assignment.num_rows
                    &&& synthesized(*config, *final(layouter), nrows)
                },
                Err(e) => {
                    &&& *final(layouter) == *old(layouter)
                    &&& if old(layouter).instance@.len() < 2 {
                        e == Error::InvalidQuery
                    } else {
                        e == Error::NotEnoughRows && nrows > old(layouter).assignment.num_rows
                    }
                },
            },
    {
        let chip = FiboChip::construct(*config);
        match chip.assign(layouter, nrows) {
            Ok(_) => Ok(()),
            Err(e) => Err(e),
        }
    }
}

/// Configure the circuit on a fresh constraint system, synthesize it over
/// `nrows` rows on a grid of `max_rows` rows, and run the checker against
/// the given public input vector. The report is empty exactly when the
/// public input carries, at row 2, the recurrence term seeded from its own
/// first two values; any violation is the instance mismatch at row 2 —
/// never a gate failure.
pub fn mock_run<F: FieldElement>(
    circuit: &FiboCircuit<F>,
    max_rows: usize,
    nrows: usize,
    public: Vec<F>,
) -> (r: Result<Vec<Violation>, Error>)
    requires
        nrows >= 3,
    ensures
        match r {
            Ok(out) => {
                &&& public@.len() >= 2
                &&& nrows <= max_rows
                &&& (out@.len() == 0 <==> (public@.len() >= 3 && public@[2] == expected_output(
                    public@[0],
                    public@[1],
                    nrows,
                )))
                &&& forall|v: Violation| #[trigger] out@.contains(v) ==> v == instance_mismatch(2)
            },
            Err(e) => {
                if public@.len() < 2 {
                    e == Error::InvalidQuery
                } else {
                    e == Error::NotEnoughRows && nrows > max_rows
                }
            },
        },
{
    let mut cs = ConstraintSystem::new();
    let config = FiboCircuit::<F>::configure(&mut cs);
    let mut layouter = Layouter::<F>::new(&cs, max_rows, public);
    match circuit.synthesize(&config, &mut layouter, nrows) {
        Ok(()) => (),
        Err(e) => {
            return Err(e);
        },
    };
    let out = check(&cs, &layouter.assignment, &layouter.instance);
    proof {
        lemma_mock_run_report(cs, layouter, config, nrows, out@);
    }
    Ok(out)
}

/// What the checker's report can hold after this circuit's synthesis: only
/// the instance mismatch at row 2, present exactly when the public input
/// disagrees with the final term there.
proof fn lemma_mock_run_report<F: FieldElement>(
    cs: ConstraintSystem,
    lay: Layouter<F>,
    cfg: FiboConfig,
    nrows: usize,
    out: Seq<Violation>,
)
    requires
        cfg == circuit_config(),
        cs.gates@ =~= seq![add_gate(circuit_config())],
        nrows >= 3,
        lay.assignment.num_rows >= nrows,
        synthesized(cfg, lay, nrows),
        forall|v: Violation| #[trigger]
            out.contains(v) <==> is_violation(cs, lay.assignment, lay.instance@, v),
        (out.len() == 0) <==> satisfied(cs, lay.assignment, lay.instance@),
    ensures
        out.len() == 0 <==> (lay.instance@.len() >= 3 && lay.instance@[2] == expected_output(
            lay.instance@[0],
            lay.instance@[1],
            nrows,
        )),
        forall|v: Violation| #[trigger] out.contains(v) ==> v == instance_mismatch(2),
{
    let asn = lay.assignment;
    let public = lay.instance@;
    let p0 = public[0];
    let p1 = public[1];
    let g = add_gate(circuit_config());
    assert forall|row: int| 0 <= row < asn.num_rows implies gate_row_ok(asn, g, row) by {
        if selector_on(asn, g.selector as int, row) {
            assert(row == 0 || (2 <= row < nrows - 2));
            assert(fib_value(p0, p1, (row + 2) as nat) == fib_value(p0, p1, row as nat).plus_spec(
                fib_value(p0, p1, (row + 1) as nat),
            ));
        }
    }
    let bind0 = public_bind(cfg.advice.index, 0, 0);
    let bind1 = public_bind(cfg.advice.index, 1, 1);
    let bind2 = public_bind(cfg.advice.index, (nrows - 1) as usize, 2);
    assert(asn.copies@.len() == 3);
    assert(asn.copies@[0] == bind0 && asn.copies@[1] == bind1 && asn.copies@[2] == bind2);
    assert(fib_value(p0, p1, 0) == p0 && fib_value(p0, p1, 1) == p1);
    assert(cell_value(asn, public, bind0.left) == Some(p0));
    assert(cell_value(asn, public, bind1.left) == Some(p1));
    assert(cell_value(asn, public, bind2.left) == Some(expected_output(p0, p1, nrows)));
    let ok2 = public.len() > 2 && public[2] == expected_output(p0, p1, nrows);
    assert(copy_ok(asn, public, bind0));
    assert(copy_ok(asn, public, bind1));
    assert(copy_ok(asn, public, bind2) == ok2);
    assert forall|v: Violation| is_violation(cs, asn, public, v) implies (v == instance_mismatch(2)
        && !ok2) by {
        match v {
            Violation::Gate { gate, row } => {
                assert(cs.gates@[gate as int] == g);
                assert(gate_row_ok(asn, g, row as int));
                assert(false);
            },
            Violation::CopyMismatch { index } => {
                assert(asn.copies@[index as int].right.kind is Instance);
                assert(false);
            },
            Violation::InstanceMismatch { row } => {
                let i = choose|i: int|
                    0 <= i < asn.copies@.len() && copy_touches_instance_row(
                        #[trigger] asn.copies@[i],
                        row,
                    ) && !copy_ok(asn, public, asn.copies@[i]);
                if i == 0 {
                    assert(false);
                } else if i == 1 {
                    assert(false);
                } else {
                    assert(i == 2);
                    assert(row == 2 && !ok2);
                }
            },
        }
    }
    if !ok2 {
        assert(copy_touches_instance_row(asn.copies@[2], 2));
        assert(is_violation(cs, asn, public, instance_mismatch(2)));
        assert(out.contains(instance_mismatch(2)));
        assert(out.len() > 0);
    } else {
        assert forall|i: int| 0 <= i < asn.copies@.len() implies copy_ok(
            asn,
            public,
            #[trigger] asn.copies@[i],
        ) by {
            if i == 0 {
            } else if i == 1 {
            } else {
                assert(i == 2);
            }
        }
        assert forall|gi: int, row: int|
            0 <= gi < cs.gates@.len() && 0 <= row < asn.num_rows implies #[trigger] gate_row_ok(
            asn,
            cs.gates@[gi],
            row,
        ) by {
            assert(cs.gates@[gi] == g);
        }
        assert(satisfied(cs, asn, public));
    }
}

/// The two circuit variants agree: with the same seeds, `steps` recurrence
/// steps of the three-column circuit expose the same final value as
/// `steps + 3` total rows of this single-column circuit.
pub proof fn lemma_variants_agree<F: FieldElement>(a: F, b: F, steps: usize)
    requires
        steps + 3 <= usize::MAX,
    ensures
        crate::fibo_circuit::expected_output(a, b, steps) == expected_output(
            a,
            b,
            (steps + 3) as usize,
        ),
{
}

} // verus!
