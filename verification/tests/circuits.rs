use fibo_circuits::fibo_circuit;
use fibo_circuits::fibo_circuit2;
use fibo_circuits::field::{FieldElement, Mersenne61, MODULUS};
use fibo_circuits::system::{check, row_capacity, ConstraintSystem, Error, Layouter, Violation};

fn fe(x: u64) -> Mersenne61 {
    Mersenne61::from_u64(x)
}

fn public(values: &[u64]) -> Vec<Mersenne61> {
    values.iter().map(|v| fe(*v)).collect()
}

#[test]
fn field_addition_reduces() {
    assert_eq!(fe(1).plus(fe(1)), fe(2));
    assert_eq!(fe(34).plus(fe(21)), fe(55));
    assert_eq!(fe(MODULUS - 1).plus(fe(1)), fe(0));
    assert_eq!(fe(MODULUS).value, 0);
}

#[test]
fn three_column_accepts_correct_output() {
    assert_eq!(row_capacity(4), 16);
    let circuit = fibo_circuit::FiboCircuit { a: Some(fe(1)), b: Some(fe(1)) };
    let out = fibo_circuit::mock_run(&circuit, row_capacity(4), 7, public(&[1, 1, 55])).unwrap();
    assert!(out.is_empty());
}

#[test]
fn three_column_general_rows() {
    // 1, 1, 2, 3, 5, 8, 13: four recurrence steps end at term 6.
    let circuit = fibo_circuit::FiboCircuit { a: Some(fe(1)), b: Some(fe(1)) };
    let out = fibo_circuit::mock_run(&circuit, 8, 4, public(&[1, 1, 13])).unwrap();
    assert!(out.is_empty());
    // 2, 3, 5, 8, 13, 21, 34, 55, 89, 144: other seeds, seven steps.
    let circuit = fibo_circuit::FiboCircuit { a: Some(fe(2)), b: Some(fe(3)) };
    let out = fibo_circuit::mock_run(&circuit, 16, 7, public(&[2, 3, 144])).unwrap();
    assert!(out.is_empty());
}

#[test]
fn three_column_rejects_wrong_output() {
    let circuit = fibo_circuit::FiboCircuit { a: Some(fe(1)), b: Some(fe(1)) };
    let out = fibo_circuit::mock_run(&circuit, 16, 7, public(&[1, 1, 54])).unwrap();
    assert_eq!(out, vec![Violation::InstanceMismatch { row: 2 }]);
}

#[test]
fn three_column_rejects_wrong_seed() {
    let circuit = fibo_circuit::FiboCircuit { a: Some(fe(1)), b: Some(fe(1)) };
    let out = fibo_circuit::mock_run(&circuit, 16, 7, public(&[9, 1, 55])).unwrap();
    assert_eq!(out, vec![Violation::InstanceMismatch { row: 0 }]);
}

#[test]
fn three_column_rejects_short_public() {
    let circuit = fibo_circuit::FiboCircuit { a: Some(fe(1)), b: Some(fe(1)) };
    let out = fibo_circuit::mock_run(&circuit, 16, 7, public(&[1, 1])).unwrap();
    assert_eq!(out, vec![Violation::InstanceMismatch { row: 2 }]);
}

#[test]
fn three_column_missing_witness_is_synthesis_error() {
    let circuit: fibo_circuit::FiboCircuit<Mersenne61> =
        fibo_circuit::FiboCircuit { a: None, b: Some(fe(1)) };
    let err = fibo_circuit::mock_run(&circuit, 16, 7, public(&[1, 1, 55])).unwrap_err();
    assert_eq!(err, Error::Synthesis);
}

#[test]
fn three_column_out_of_rows() {
    let circuit = fibo_circuit::FiboCircuit { a: Some(fe(1)), b: Some(fe(1)) };
    let err = fibo_circuit::mock_run(&circuit, 4, 7, public(&[1, 1, 55])).unwrap_err();
    assert_eq!(err, Error::NotEnoughRows);
}

#[test]
fn single_column_output_is_55() {
    // 10 total rows: 1, 1, 2, 3, 5, 8, 13, 21, 34, 55.
    let circuit = fibo_circuit2::FiboCircuit { a: Some(fe(1)), b: Some(fe(1)) };
    let out = fibo_circuit2::mock_run(&circuit, row_capacity(5), 10, public(&[1, 1, 55])).unwrap();
    assert!(out.is_empty());
}

#[test]
fn single_column_rejects_wrong_output() {
    let circuit = fibo_circuit2::FiboCircuit { a: Some(fe(1)), b: Some(fe(1)) };
    let out = fibo_circuit2::mock_run(&circuit, 32, 10, public(&[1, 1, 56])).unwrap();
    assert_eq!(out, vec![Violation::InstanceMismatch { row: 2 }]);
}

#[test]
fn single_column_short_public_is_invalid_query() {
    let circuit = fibo_circuit2::FiboCircuit { a: Some(fe(1)), b: Some(fe(1)) };
    let err = fibo_circuit2::mock_run(&circuit, 32, 10, public(&[1])).unwrap_err();
    assert_eq!(err, Error::InvalidQuery);
}

#[test]
fn single_column_out_of_rows() {
    let circuit = fibo_circuit2::FiboCircuit { a: Some(fe(1)), b: Some(fe(1)) };
    let err = fibo_circuit2::mock_run(&circuit, 8, 10, public(&[1, 1, 55])).unwrap_err();
    assert_eq!(err, Error::NotEnoughRows);
}

#[test]
fn variants_agree_on_equivalent_budgets() {
    // Seven recurrence steps of the three-column circuit match ten total
    // rows of the single-column one, for any seeds.
    for (a, b, expected) in [(1u64, 1u64, 55u64), (2, 3, 144), (0, 1, 34)] {
        let c1 = fibo_circuit::FiboCircuit { a: Some(fe(a)), b: Some(fe(b)) };
        let out1 = fibo_circuit::mock_run(&c1, 16, 7, public(&[a, b, expected])).unwrap();
        assert!(out1.is_empty());
        let c2 = fibo_circuit2::FiboCircuit { a: Some(fe(a)), b: Some(fe(b)) };
        let out2 = fibo_circuit2::mock_run(&c2, 32, 10, public(&[a, b, expected])).unwrap();
        assert!(out2.is_empty());
    }
}

#[test]
fn mutated_cell_is_reported_at_its_gate() {
    // Synthesize the three-column circuit by hand, then corrupt one assigned
    // cell: the checker must report exactly the one gate row reading that cell.
    let mut cs = ConstraintSystem::new();
    let config = fibo_circuit::FiboCircuit::<Mersenne61>::configure(&mut cs);
    let mut layouter = Layouter::new(&cs, 16, public(&[1, 1, 55]));
    let circuit = fibo_circuit::FiboCircuit { a: Some(fe(1)), b: Some(fe(1)) };
    circuit.synthesize(&config, &mut layouter, 7).unwrap();
    let clean = check(&cs, &layouter.assignment, &layouter.instance);
    assert!(clean.is_empty());
    // Column 0 holds terms 0, 1, 2, ...; row 3 holds the value 3.
    assert_eq!(layouter.assignment.advice[0][3], Some(fe(3)));
    layouter.assignment.advice[0][3] = Some(fe(4));
    let out = check(&cs, &layouter.assignment, &layouter.instance);
    assert_eq!(out, vec![Violation::Gate { gate: 0, row: 3 }]);
}

#[test]
fn mutated_exposed_cell_is_reported_at_its_binding() {
    // Corrupting the cell bound to instance row 0 breaks the copy constraint
    // and its own row's gate, and nothing else.
    let mut cs = ConstraintSystem::new();
    let config = fibo_circuit::FiboCircuit::<Mersenne61>::configure(&mut cs);
    let mut layouter = Layouter::new(&cs, 16, public(&[1, 1, 55]));
    let circuit = fibo_circuit::FiboCircuit { a: Some(fe(1)), b: Some(fe(1)) };
    circuit.synthesize(&config, &mut layouter, 7).unwrap();
    layouter.assignment.advice[0][0] = Some(fe(7));
    let out = check(&cs, &layouter.assignment, &layouter.instance);
    assert_eq!(
        out,
        vec![
            Violation::Gate { gate: 0, row: 0 },
            Violation::InstanceMismatch { row: 0 },
        ]
    );
}

#[test]
fn structure_only_clone_clears_witnesses() {
    let circuit = fibo_circuit::FiboCircuit { a: Some(fe(5)), b: Some(fe(6)) };
    let bare = circuit.without_witnesses();
    assert!(bare.a.is_none() && bare.b.is_none());
    let circuit2 = fibo_circuit2::FiboCircuit { a: Some(fe(5)), b: Some(fe(6)) };
    let bare2 = circuit2.without_witnesses();
    assert!(bare2.a.is_none() && bare2.b.is_none());
}

#[test]
fn layouter_rejects_double_assignment() {
    let mut cs = ConstraintSystem::new();
    let col = cs.advice_column();
    let mut layouter: Layouter<Mersenne61> = Layouter::new(&cs, 4, Vec::new());
    let region = layouter.new_region(1).unwrap();
    layouter.assign_advice(region, col, 0, Some(fe(1))).unwrap();
    let err = layouter.assign_advice(region, col, 0, Some(fe(2))).unwrap_err();
    assert_eq!(err, Error::AlreadyAssigned);
    let err = layouter.assign_advice(region, col, 1, Some(fe(2))).unwrap_err();
    assert_eq!(err, Error::InvalidQuery);
    let err = layouter.assign_advice(region, col, 0, None).unwrap_err();
    assert_eq!(err, Error::Synthesis);
}
