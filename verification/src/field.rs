//! The scalar field that circuit values live in.
//!
//! The circuit layer is generic over [`FieldElement`], an additive capability
//! with a specification-level model, so that no concrete field is hardcoded.
//! [`Mersenne61`] is a concrete reduced-residue field supplied with the
//! library and used by the tests.

use vstd::prelude::*;
use vstd::arithmetic::div_mod::{
    lemma_add_mod_noop, lemma_mod_add_multiples_vanish, lemma_mod_division_less_than_divisor,
    lemma_small_mod,
};

verus! {

/// A field scalar as the circuit layer sees it: a copyable value with an
/// addition operation, an equality test, and the algebraic laws the
/// satisfiability arguments rely on.
pub trait FieldElement: Sized + Copy {
    /// Whether the value is a reduced (canonical) element of the field.
    spec fn valid(self) -> bool;

    /// Field addition, at the specification level.
    spec fn plus_spec(self, other: Self) -> Self;

    /// Field addition. The result is always a reduced element.
    fn plus(self, other: Self) -> (r: Self)
        ensures
            r == self.plus_spec(other),
            r.valid(),
    ;

    /// Equality test on field values.
    fn same(self, other: Self) -> (r: bool)
        ensures
            r == (self == other),
    ;

    /// Addition is commutative.
    proof fn lemma_plus_comm(x: Self, y: Self)
        ensures
            x.plus_spec(y) == y.plus_spec(x),
    ;

    /// Addition of reduced elements is cancellative.
    proof fn lemma_plus_cancel(x: Self, y: Self, z: Self)
        requires
            x.valid(),
            y.valid(),
            z.valid(),
            x.plus_spec(z) == y.plus_spec(z),
        ensures
            x == y,
    ;
}

/// The two-term linear recurrence over a field, starting from seeds `a`, `b`:
/// term 0 is `a`, term 1 is `b`, and each later term is the field sum of the
/// two before it.
pub open spec fn fib_value<F: FieldElement>(a: F, b: F, n: nat) -> F
    decreases n,
{
    if n == 0 {
        a
    } else if n == 1 {
        b
    } else {
        fib_value(a, b, (n - 2) as nat).plus_spec(fib_value(a, b, (n - 1) as nat))
    }
}

/// The modulus of [`Mersenne61`]: the Mersenne prime `2^61 - 1`.
pub const MODULUS: u64 = 0x1fffffffffffffff;

/// An element of the prime field of order `2^61 - 1`, held as a residue.
#[derive(Clone, Copy, PartialEq, Eq, Structural, Debug)]
pub struct Mersenne61 {
    pub value: u64,
}

impl Mersenne61 {
    /// Reduce an arbitrary integer into the field.
    pub fn from_u64(x: u64) -> (r: Self)
        ensures
            r.value == x as int % MODULUS as int,
            r.valid(),
    {
        let v: u64 = x % MODULUS;
        proof {
            lemma_mod_division_less_than_divisor(x as int, MODULUS as int);
        }
        Mersenne61 { value: v }
    }
}

/// For `0 <= s < 2m`, reduction modulo `m` is a single conditional subtraction.
proof fn lemma_mod_small_range(s: int, m: int)
    requires
        0 < m,
        0 <= s < 2 * m,
    ensures
        s % m == if s < m {
            s
        } else {
            s - m
        },
{
    if s < m {
        lemma_small_mod(s as nat, m as nat);
    } else {
        lemma_mod_add_multiples_vanish(s - m, m);
        lemma_small_mod((s - m) as nat, m as nat);
    }
}

impl FieldElement for Mersenne61 {
    open spec fn valid(self) -> bool {
        self.value < MODULUS
    }

    open spec fn plus_spec(self, other: Self) -> Self {
        Mersenne61 { value: ((self.value + other.value) % MODULUS as int) as u64 }
    }

    fn plus(self, other: Self) -> (r: Self) {
        let a: u64 = self.value % MODULUS;
        let b: u64 = other.value % MODULUS;
        proof {
            lemma_mod_division_less_than_divisor(self.value as int, MODULUS as int);
            lemma_mod_division_less_than_divisor(other.value as int, MODULUS as int);
        }
        let s: u64 = a + b;
        let w: u64 = if s >= MODULUS {
            s - MODULUS
        } else {
            s
        };
        proof {
            lemma_add_mod_noop(self.value as int, other.value as int, MODULUS as int);
            lemma_mod_small_range(s as int, MODULUS as int);
        }
        Mersenne61 { value: w }
    }

    fn same(self, other: Self) -> (r: bool) {
        self == other
    }

    proof fn lemma_plus_comm(x: Self, y: Self) {
    }

    proof fn lemma_plus_cancel(x: Self, y: Self, z: Self) {
        lemma_mod_small_range(x.value + z.value, MODULUS as int);
        lemma_mod_small_range(y.value + z.value, MODULUS as int);
    }
}

} // verus!
