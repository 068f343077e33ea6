//! The BabyBear prime field in which every trace cell lives.
//!
//! A cell is held as its canonical representative, a `u32` below [`BABY_BEAR_P`].

use vstd::prelude::*;

verus! {

/// The BabyBear modulus `2^31 - 2^27 + 1`.
pub const BABY_BEAR_P: u32 = 0x7800_0001;

/// The field value of an integer: its residue modulo the BabyBear prime.
pub open spec fn felt(x: int) -> int {
    x % (BABY_BEAR_P as int)
}

/// A `u32` is a canonical field element when it lies below the modulus.
pub open spec fn is_canonical(x: u32) -> bool {
    x < BABY_BEAR_P
}

/// Every value of a sequence is a canonical field element.
pub open spec fn all_canonical(s: Seq<u32>) -> bool {
    forall|i: int| 0 <= i < s.len() ==> is_canonical(#[trigger] s[i])
}


/// No integer from 2 to `2^16 - 1` divides the modulus.
#[verifier::rlimit(100)]
proof fn lemma_no_small_divisor(d: u32)
    by (bit_vector)
    requires
        2 <= d < 0x1_0000,
    ensures
        0x7800_0001u32 % d != 0,
{
}

/// The BabyBear modulus is prime: no integer strictly between 1 and it divides it.
pub proof fn lemma_baby_bear_prime(a: int)
    requires
        2 <= a < BABY_BEAR_P,
    ensures
        (BABY_BEAR_P as int) % a != 0,
{
    let p = BABY_BEAR_P as int;
    if a < 0x1_0000 {
        lemma_no_small_divisor(a as u32);
    } else if p % a == 0 {
        // Then `p = a * b` with a cofactor `b` small enough to be ruled out above.
        vstd::arithmetic::div_mod::lemma_fundamental_div_mod(p, a);
        let b = p / a;
        assert(p == a * b);
        assert(2 <= b < 0x1_0000) by (nonlinear_arith)
            requires
                p == a * b,
                0x1_0000 <= a < p,
                p == 0x7800_0001,
        ;
        assert(p == b * a) by (nonlinear_arith)
            requires
                p == a * b,
        ;
        vstd::arithmetic::div_mod::lemma_fundamental_div_mod_converse(p, b, a, 0);
        lemma_no_small_divisor(b as u32);
    }
}

/// The product of two nonzero residues is nonzero modulo the BabyBear prime.
pub proof fn lemma_no_zero_divisors(a: int, b: int)
    requires
        0 < a < BABY_BEAR_P,
        0 < b < BABY_BEAR_P,
    ensures
        felt(a * b) != 0,
    decreases a,
{
    let p = BABY_BEAR_P as int;
    if a == 1 {
        assert(a * b == b);
    } else if felt(a * b) == 0 {
        // Reduce `p` by `a`: the remainder `r` is nonzero as `p` is prime, and
        // `r * b = p * b - q * (a * b)` would vanish too, with `r < a`.
        lemma_baby_bear_prime(a);
        vstd::arithmetic::div_mod::lemma_fundamental_div_mod(p, a);
        let q = p / a;
        let r = p % a;
        assert(0 < r < a);
        vstd::arithmetic::div_mod::lemma_fundamental_div_mod(a * b, p);
        let k = (a * b) / p;
        assert(a * b == p * k);
        assert(r * b == (b - q * k) * p) by (nonlinear_arith)
            requires
                p == a * q + r,
                a * b == p * k,
        ;
        vstd::arithmetic::div_mod::lemma_mod_multiples_basic(b - q * k, p);
        lemma_no_zero_divisors(r, b);
    }
}

/// The field's only roots of `X * (X - 1)` are 0 and 1.
pub proof fn lemma_field_bit(v: int)
    requires
        0 <= v < BABY_BEAR_P,
        felt(v * (v - 1)) == 0,
    ensures
        v == 0 || v == 1,
{
    if v >= 2 {
        lemma_no_zero_divisors(v, v - 1);
    }
}

} // verus!
