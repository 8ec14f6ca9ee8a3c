use vstd::prelude::*;
use vstd::arithmetic::div_mod::{lemma_mod_multiples_basic, lemma_mod_twice, lemma_small_mod};

verus! {

/// Exact arithmetic modulo `modulus()`: a finite field when the modulus is prime,
/// otherwise the ring of integers modulo it. Every element has a canonical value
/// in `[0, modulus())`.
pub trait FieldImpl: Sized + Copy {
    /// The modulus of the arithmetic (the characteristic, for a field).
    spec fn modulus() -> nat;

    /// The canonical value of an element, in `[0, modulus())`.
    spec fn val(&self) -> nat;

    proof fn lemma_val_bound(x: Self)
        ensures
            1 <= Self::modulus(),
            x.val() < Self::modulus(),
    ;

    /// The additive identity.
    fn zero() -> (r: Self)
        ensures
            r.val() == 0,
    ;

    /// Field addition.
    fn add(&self, o: &Self) -> (r: Self)
        ensures
            r.val() == (self.val() + o.val()) % Self::modulus(),
    ;

    /// Field multiplication.
    fn mul(&self, o: &Self) -> (r: Self)
        ensures
            r.val() == (self.val() * o.val()) % Self::modulus(),
    ;
}

/// The integers modulo `P`: a finite field when `P` is prime, otherwise the ring of
/// integers modulo `P`. Primality is not checked. A modulus below 2 gives the zero
/// ring.
#[derive(Clone, Copy, Debug, PartialEq, Eq)]
pub struct PrimeField<const P: u64> {
    v: u64,
}

/// The modulus that `PrimeField<p>` computes with.
pub open spec fn effective_modulus(p: u64) -> nat {
    if p < 2 {
        1
    } else {
        p as nat
    }
}

impl<const P: u64> PrimeField<P> {
    /// The element `x mod P`.
    pub fn new(x: u64) -> (r: Self)
        ensures
            r.val() == x as int % (effective_modulus(P) as int),
    {
        proof {
            lemma_small_mod(0, effective_modulus(P));
            lemma_mod_twice(x as int, effective_modulus(P) as int);
        }
        if P < 2 {
            PrimeField { v: 0 }
        } else {
            PrimeField { v: x % P }
        }
    }

    /// The canonical value of the element.
    pub fn value(&self) -> (r: u64)
        ensures
            r as nat == self.val(),
    {
        if P < 2 {
            0
        } else {
            self.v % P
        }
    }
}

impl<const P: u64> FieldImpl for PrimeField<P> {
    open spec fn modulus() -> nat {
        effective_modulus(P)
    }

    closed spec fn val(&self) -> nat {
        (self.v as int % (effective_modulus(P) as int)) as nat
    }

    proof fn lemma_val_bound(x: Self) {
    }

    fn zero() -> (r: Self) {
        proof {
            lemma_small_mod(0, effective_modulus(P));
        }
        PrimeField { v: 0 }
    }

    fn add(&self, o: &Self) -> (r: Self) {
        if P < 2 {
            proof {
                lemma_small_mod(0, 1);
                lemma_mod_multiples_basic((self.val() + o.val()) as int, 1);
            }
            return PrimeField { v: 0 };
        }
        let a = self.value();
        let b = o.value();
        let s: u128 = (a as u128 + b as u128) % (P as u128);
        let r = PrimeField { v: s as u64 };
        proof {
            lemma_small_mod(s as nat, P as nat);
        }
        r
    }

    fn mul(&self, o: &Self) -> (r: Self) {
        if P < 2 {
            proof {
                lemma_small_mod(0, 1);
                lemma_mod_multiples_basic((self.val() * o.val()) as int, 1);
            }
            return PrimeField { v: 0 };
        }
        let a = self.value();
        let b = o.value();
        assert((a as u128) * (b as u128) <= u64::MAX as u128 * u64::MAX as u128) by (nonlinear_arith)
            requires
                a <= u64::MAX,
                b <= u64::MAX,
        ;
        let s: u128 = ((a as u128) * (b as u128)) % (P as u128);
        let r = PrimeField { v: s as u64 };
        proof {
            lemma_small_mod(s as nat, P as nat);
        }
        r
    }
}

} // verus!
