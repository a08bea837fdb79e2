//! A minimal arithmetic-circuit construction and witness-assignment engine in
//! the PLONK style: typed columns, selector-guarded addition gates, equality
//! (copy) constraints, a region-based layouter, and a satisfiability checker,
//! demonstrated on circuits that prove a Fibonacci-style recurrence.

pub mod field;
pub mod system;
pub mod fibo_circuit;
pub mod fibo_circuit2;
