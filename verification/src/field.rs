//! The Goldilocks field, on canonical `u64` representatives.
//!
//! A field element is carried as a plain `u64`. Any `u64` stands for its residue
//! modulo [`FIELD_MODULUS`]; the functions here return the canonical one.

use vstd::prelude::*;

verus! {

/// The prime `2^64 - 2^32 + 1`.
pub const FIELD_MODULUS: u64 = 0xffff_ffff_0000_0001;

/// The canonical representative of an integer.
pub open spec fn residue(x: int) -> u64 {
    (x % (FIELD_MODULUS as int)) as u64
}

/// Whether an integer stands for zero.
pub open spec fn vanishes(x: int) -> bool {
    x % (FIELD_MODULUS as int) == 0
}

/// `Goldilocks::as_canonical_u64` after `Goldilocks::new`: the residue of `a`,
/// which is `a` itself below the modulus.
#[verifier::external_body]
pub(crate) fn canonical(a: u64) -> (r: u64)
    ensures
        r == residue(a as int),
{
    p3_field::PrimeField64::as_canonical_u64(&p3_goldilocks::Goldilocks::new(a))
}

/// `Goldilocks`' `+`: the residue of the sum.
#[verifier::external_body]
pub(crate) fn field_add(a: u64, b: u64) -> (r: u64)
    ensures
        r == residue(a + b),
{
    let sum = p3_goldilocks::Goldilocks::new(a) + p3_goldilocks::Goldilocks::new(b);
    p3_field::PrimeField64::as_canonical_u64(&sum)
}

/// `Goldilocks`' `-`: the residue of the difference.
#[verifier::external_body]
pub(crate) fn field_sub(a: u64, b: u64) -> (r: u64)
    ensures
        r == residue(a - b),
{
    let difference = p3_goldilocks::Goldilocks::new(a) - p3_goldilocks::Goldilocks::new(b);
    p3_field::PrimeField64::as_canonical_u64(&difference)
}

/// `Goldilocks`' `*`: the residue of the product.
#[verifier::external_body]
pub(crate) fn field_mul(a: u64, b: u64) -> (r: u64)
    ensures
        r == residue(a * b),
{
    let product = p3_goldilocks::Goldilocks::new(a) * p3_goldilocks::Goldilocks::new(b);
    p3_field::PrimeField64::as_canonical_u64(&product)
}

/// `Field::try_inverse` of `Goldilocks`: nothing for zero, else the canonical
/// factor whose product with `a` is one.
#[verifier::external_body]
fn try_inverse(a: u64) -> (r: Option<u64>)
    ensures
        r is None <==> vanishes(a as int),
        r matches Some(b) ==> b < FIELD_MODULUS && residue(a * b) == 1,
{
    let inverse = p3_field::Field::try_inverse(&p3_goldilocks::Goldilocks::new(a));
    inverse.map(|b| p3_field::PrimeField64::as_canonical_u64(&b))
}

/// The canonical inverse of `a`, or zero where there is none.
pub open spec fn inverse_or_zero(a: u64) -> u64 {
    if vanishes(a as int) {
        0
    } else {
        choose|b: u64| b < FIELD_MODULUS && #[trigger] residue(a * b) == 1
    }
}

/// An inverse is unique.
proof fn lemma_inverse_unique(a: int, b: int, c: int)
    requires
        0 <= b < FIELD_MODULUS,
        0 <= c < FIELD_MODULUS,
        residue(a * b) == 1,
        residue(a * c) == 1,
    ensures
        b == c,
{
    let p = FIELD_MODULUS as int;
    // b == b * (a * c) == (a * b) * c == c modulo p.
    assert((b * (a * c)) % p == b) by {
        vstd::arithmetic::div_mod::lemma_mul_mod_noop_right(b, a * c, p);
        assert((a * c) % p == 1);
        assert(b * ((a * c) % p) == b) by (nonlinear_arith)
            requires
                (a * c) % p == 1,
        ;
        vstd::arithmetic::div_mod::lemma_small_mod(b as nat, p as nat);
    }
    assert(((a * b) * c) % p == c) by {
        vstd::arithmetic::div_mod::lemma_mul_mod_noop_left(a * b, c, p);
        assert((a * b) % p == 1);
        assert(((a * b) % p) * c == c) by (nonlinear_arith)
            requires
                (a * b) % p == 1,
        ;
        vstd::arithmetic::div_mod::lemma_small_mod(c as nat, p as nat);
    }
    assert(b * (a * c) == (a * b) * c) by (nonlinear_arith);
}

/// The inverse of `a`, or zero where there is none.
pub(crate) fn field_inverse(a: u64) -> (r: u64)
    ensures
        r == inverse_or_zero(a),
{
    match try_inverse(a) {
        Some(b) => {
            proof {
                let c = choose|c: u64| c < FIELD_MODULUS && #[trigger] residue(a * c) == 1;
                lemma_inverse_unique(a as int, b as int, c as int);
            }
            b
        },
        None => 0,
    }
}

} // verus!
