//! The modulus is prime.
//!
//! A number of order `2^32` modulo every divisor leaves no room for a divisor
//! below `2^32`, and a composite modulus would have one.

use vstd::prelude::*;

use crate::field::{vanishes, FIELD_MODULUS};
use vstd::arithmetic::div_mod::{
    lemma_add_mod_noop, lemma_fundamental_div_mod, lemma_fundamental_div_mod_converse,
    lemma_mod_bound, lemma_mod_multiples_basic, lemma_mul_mod_noop, lemma_small_mod,
    lemma_sub_mod_noop,
};
use vstd::arithmetic::power::{
    lemma1_pow, lemma_pow1, lemma_pow_adds, lemma_pow_mod_noop, lemma_pow_multiplies, pow,
};

verus! {

/// A number of order `2^32` modulo the modulus.
pub const GENERATOR: u64 = 0x1856_29dc_da58_878c;

/// Powers of the generator are squared one after the other.
proof fn lemma_square(n: nat, x: int, y: int, q: int)
    requires
        pow(GENERATOR as int, n) % (FIELD_MODULUS as int) == x,
        x * x == q * FIELD_MODULUS + y,
        0 <= y < FIELD_MODULUS,
    ensures
        pow(GENERATOR as int, 2 * n) % (FIELD_MODULUS as int) == y,
{
    let p = FIELD_MODULUS as int;
    lemma_pow_adds(GENERATOR as int, n, n);
    lemma_mul_mod_noop(pow(GENERATOR as int, n), pow(GENERATOR as int, n), p);
    lemma_fundamental_div_mod_converse(x * x, p, q, y);
}

/// The generator's power `2^31` is minus one.
proof fn lemma_generator()
    ensures
        pow(GENERATOR as int, 0x8000_0000) % (FIELD_MODULUS as int) == FIELD_MODULUS - 1,
{
    lemma_pow1(GENERATOR as int);
    lemma_small_mod(GENERATOR as nat, FIELD_MODULUS as nat);
    lemma_square(0x1, 0x185629dcda58878c, 0x400a7f755588e659, 0x25044d9927c0e37);
    lemma_square(0x2, 0x400a7f755588e659, 0x7e9bd009b86a0845, 0x10054028ef6a02ac);
    lemma_square(0x4, 0x7e9bd009b86a0845, 0xdfa8c93ba46d2666, 0x3e9dbf9f64fb3c33);
    lemma_square(0x8, 0xdfa8c93ba46d2666, 0x59049500004a4485, 0xc3677ddf68542c1f);
    lemma_square(0x10, 0x59049500004a4485, 0x10d78dd8915a171d, 0x1ef42faf1de0d5fc);
    lemma_square(0x20, 0x10d78dd8915a171d, 0xed41d05b78d6e286, 0x11ba73aa3a356c3);
    lemma_square(0x40, 0xed41d05b78d6e286, 0x4bbaf5976ecfefd8, 0xdbe2ecb5b1a8ee4c);
    lemma_square(0x80, 0x4bbaf5976ecfefd8, 0x86cdcc31c307e171, 0x166714709cfd24cf);
    lemma_square(0x100, 0x86cdcc31c307e171, 0xea9d5a1336fbc98b, 0x46fc173509ba0a56);
    lemma_square(0x200, 0xea9d5a1336fbc98b, 0x4b2a18ade67246b5, 0xd704096392cb4ac4);
    lemma_square(0x400, 0x4b2a18ade67246b5, 0xf502aef532322654, 0x1611b162168955a5);
    lemma_square(0x800, 0xf502aef532322654, 0x30ba2ecd5e93e76d, 0xea7e22e96ff92423);
    lemma_square(0x1000, 0x30ba2ecd5e93e76d, 0xfbd41c6b8caa3302, 0x94658f517b9b167);
    lemma_square(0x2000, 0xfbd41c6b8caa3302, 0x81281a7b05f9beac, 0xf7b99f7af2d80d58);
    lemma_square(0x4000, 0x81281a7b05f9beac, 0xabd0a6e8aa3d8a0e, 0x412970f8865e3982);
    lemma_square(0x8000, 0xabd0a6e8aa3d8a0e, 0x54df9630bf79450e, 0x7350690aeda5d3b6);
    lemma_square(0x10000, 0x54df9630bf79450e, 0xf6b2cffe2306baac, 0x1c237dd71ad5d218);
    lemma_square(0x20000, 0xf6b2cffe2306baac, 0xe0ee099310bba1e2, 0xedbc24a33f72c1ae);
    lemma_square(0x40000, 0xe0ee099310bba1e2, 0x1544ef2335d17997, 0xc5a16e17f0b891ed);
    lemma_square(0x80000, 0x1544ef2335d17997, 0xf2c35199959dfcb6, 0x1c461cbb2b01a5b);
    lemma_square(0x100000, 0xf2c35199959dfcb6, 0x653b4801da1c8cf, 0xe635db4caf110895);
    lemma_square(0x200000, 0x653b4801da1c8cf, 0x9d8f2ad78bfed972, 0x2807d48be33def);
    lemma_square(0x400000, 0x9d8f2ad78bfed972, 0x1905d02a5c411f4e, 0x60f8ea9da6a95776);
    lemma_square(0x800000, 0x1905d02a5c411f4e, 0xbf79143ce60ca966, 0x27222ca1363525e);
    lemma_square(0x1000000, 0xbf79143ce60ca966, 0xf80007ff08000001, 0x8f35e57791a7d4a3);
    lemma_square(0x2000000, 0xf80007ff08000001, 0x8000000000, 0xf0400f7f10000001);
    lemma_square(0x4000000, 0x8000000000, 0x3fffffffc000, 0x4000);
    lemma_square(0x8000000, 0x3fffffffc000, 0xefffffff00000001, 0xfffffff);
    lemma_square(0x10000000, 0xefffffff00000001, 0xfffffffeff000001, 0xe0ffffff01000000);
    lemma_square(0x20000000, 0xfffffffeff000001, 0x1000000000000, 0xfffffffefe000001);
    lemma_square(0x40000000, 0x1000000000000, 0xffff_ffff_0000_0000, 0x100000000);
}

/// A multiple of the modulus is a multiple of its divisors.
proof fn lemma_divisor_divides(x: int, d: int)
    requires
        d > 0,
        (FIELD_MODULUS as int) % d == 0,
        x % (FIELD_MODULUS as int) == 0,
    ensures
        x % d == 0,
{
    let p = FIELD_MODULUS as int;
    lemma_fundamental_div_mod(x, p);
    lemma_fundamental_div_mod(p, d);
    let k = x / p;
    let q = p / d;
    assert(x == d * (q * k)) by (nonlinear_arith)
        requires
            x == p * k,
            p == d * q,
    ;
    lemma_mod_multiples_basic(q * k, d);
    assert((q * k) * d == d * (q * k)) by (nonlinear_arith);
}

/// Modulo a divisor, too, the generator's power `2^31` is minus one.
proof fn lemma_half_order(d: int)
    requires
        d > 1,
        (FIELD_MODULUS as int) % d == 0,
    ensures
        pow(GENERATOR as int, 0x8000_0000) % d == d - 1,
{
    let p = FIELD_MODULUS as int;
    let x = pow(GENERATOR as int, 0x8000_0000);
    lemma_generator();
    lemma_add_mod_noop(x, 1, p);
    lemma_small_mod(1, p as nat);
    assert((x + 1) % p == 0) by {
        lemma_fundamental_div_mod_converse(p, p, 1, 0);
    }
    lemma_divisor_divides(x + 1, d);
    lemma_fundamental_div_mod(x + 1, d);
    let k = (x + 1) / d;
    assert(x == (k - 1) * d + (d - 1)) by (nonlinear_arith)
        requires
            x + 1 == d * k,
    ;
    lemma_fundamental_div_mod_converse(x, d, k - 1, d - 1);
}

/// Powers of minus one.
proof fn lemma_minus_one(m: nat)
    ensures
        pow(-1, m) == (if m % 2 == 0 {
            1int
        } else {
            -1int
        }),
    decreases m,
{
    reveal(pow);
    if m > 0 {
        lemma_minus_one((m - 1) as nat);
    }
}

/// Modulo a divisor, no smaller positive power of the generator than `2^32` is one:
/// the odd part of the exponent would make minus one equal to one.
proof fn lemma_order(d: int, k: nat, t: nat, scale: nat, rest: nat)
    requires
        d > 2,
        (FIELD_MODULUS as int) % d == 0,
        0 < k < 0x1_0000_0000,
        t <= 31,
        scale * rest == 0x8000_0000,
        k % scale == 0,
        scale >= vstd::arithmetic::power2::pow2(t),
        rest == vstd::arithmetic::power2::pow2((31 - t) as nat),
    ensures
        pow(GENERATOR as int, k) % d != 1,
    decreases 31 - t,
{
    let g = GENERATOR as int;
    let m = k / scale;
    lemma_fundamental_div_mod(k as int, scale as int);
    assert(k == scale * m);
    if m % 2 == 1 {
        if pow(g, k) % d == 1 {
            // pow(g, k * rest) is one, and it is pow(pow(g, 2^31), m).
            lemma_pow_multiplies(g, k, rest);
            lemma_pow_mod_noop(pow(g, k), rest, d);
            lemma1_pow(rest);
            lemma_small_mod(1, d as nat);
            assert(pow(g, k * rest) % d == 1);
            let half = pow(g, 0x8000_0000);
            lemma_pow_multiplies(g, 0x8000_0000, m);
            assert(k * rest == 0x8000_0000 * m) by (nonlinear_arith)
                requires
                    k == scale * m,
                    scale * rest == 0x8000_0000,
            ;
            lemma_half_order(d);
            lemma_fundamental_div_mod_converse(-1, d, -1, d - 1);
            assert(half % d == (-1) % d);
            lemma_pow_mod_noop(half, m, d);
            lemma_pow_mod_noop(-1, m, d);
            lemma_minus_one(m);
            assert(pow(g, k * rest) % d == d - 1);
        }
    } else {
        let h = m / 2;
        assert(k == (2 * scale) * h) by (nonlinear_arith)
            requires
                k == scale * m,
                m == 2 * h,
        ;
        if t == 31 {
            vstd::arithmetic::power2::lemma2_to64();
            assert(scale >= 0x8000_0000);
            assert(h >= 1) by (nonlinear_arith)
                requires
                    k == (2 * scale) * h,
                    k > 0,
            ;
            assert(k >= 0x1_0000_0000) by (nonlinear_arith)
                requires
                    k == (2 * scale) * h,
                    h >= 1,
                    scale >= 0x8000_0000,
            ;
        } else {
            vstd::arithmetic::power2::lemma_pow2_unfold((t + 1) as nat);
            vstd::arithmetic::power2::lemma_pow2_unfold((31 - t) as nat);
            let half_rest = vstd::arithmetic::power2::pow2((31 - (t + 1)) as nat);
            assert(rest == 2 * half_rest);
            assert((2 * scale) * half_rest == 0x8000_0000) by (nonlinear_arith)
                requires
                    scale * rest == 0x8000_0000,
                    rest == 2 * half_rest,
            ;
            lemma_mod_multiples_basic(h as int, (2 * scale) as int);
            assert(h * (2 * scale) == k) by (nonlinear_arith)
                requires
                    k == (2 * scale) * h,
            ;
            lemma_order(d, k, t + 1, 2 * scale, half_rest);
        }
    }
}

/// Modulo a divisor, the first `2^32` powers of the generator are different.
proof fn lemma_powers_differ(d: int, i: nat, j: nat)
    requires
        d > 2,
        (FIELD_MODULUS as int) % d == 0,
        i < j < 0x1_0000_0000,
    ensures
        pow(GENERATOR as int, i) % d != pow(GENERATOR as int, j) % d,
{
    let g = GENERATOR as int;
    if pow(g, i) % d == pow(g, j) % d {
        let back = (0x1_0000_0000 - i) as nat;
        let k = (j - i) as nat;
        // Multiply both by the rest of a full turn.
        lemma_pow_adds(g, i, back);
        lemma_pow_adds(g, j, back);
        lemma_mul_mod_noop(pow(g, i), pow(g, back), d);
        lemma_mul_mod_noop(pow(g, j), pow(g, back), d);
        assert(pow(g, 0x1_0000_0000) % d == pow(g, (k + 0x1_0000_0000) as nat) % d) by {
            assert(i + back == 0x1_0000_0000);
            assert(j + back == k + 0x1_0000_0000);
        }
        lemma_half_order(d);
        lemma_pow_adds(g, 0x8000_0000, 0x8000_0000);
        let half = pow(g, 0x8000_0000);
        lemma_mul_mod_noop(half, half, d);
        assert(((d - 1) * (d - 1)) % d == 1) by {
            assert((d - 1) * (d - 1) == (d - 2) * d + 1) by (nonlinear_arith);
            lemma_fundamental_div_mod_converse((d - 1) * (d - 1), d, d - 2, 1);
        }
        assert(pow(g, 0x1_0000_0000) % d == 1);
        lemma_pow_adds(g, k, 0x1_0000_0000);
        lemma_mul_mod_noop(pow(g, k), pow(g, 0x1_0000_0000), d);
        lemma_mod_mod_same(pow(g, k), d);
        assert(pow(g, k) % d == 1);
        vstd::arithmetic::power2::lemma2_to64();
        lemma_order(d, k, 0, 1, 0x8000_0000);
    }
}

proof fn lemma_mod_mod_same(x: int, d: int)
    requires
        d > 0,
    ensures
        ((x % d) * 1) % d == x % d,
{
    vstd::arithmetic::div_mod::lemma_mod_twice(x, d);
}

/// The modulus has no divisor below `2^32`.
proof fn lemma_no_small_divisor(d: int)
    requires
        1 < d < 0x1_0000_0000,
    ensures
        (FIELD_MODULUS as int) % d != 0,
{
    if (FIELD_MODULUS as int) % d == 0 {
        assert((FIELD_MODULUS as int) % 2 == 1);
        assert(d > 2);
        let powers = Seq::new(
            0x1_0000_0000,
            |i: int| pow(GENERATOR as int, i as nat) % d,
        );
        assert(powers.no_duplicates()) by {
            assert forall|i: int, j: int|
                0 <= i < powers.len() && 0 <= j < powers.len() && i != j implies powers[i]
                != powers[j] by {
                if i < j {
                    lemma_powers_differ(d, i as nat, j as nat);
                } else {
                    lemma_powers_differ(d, j as nat, i as nat);
                }
            }
        }
        powers.unique_seq_to_set();
        let residues = vstd::set_lib::set_int_range(0, d);
        vstd::set_lib::lemma_int_range(0, d);
        assert(powers.to_set().subset_of(residues)) by {
            assert forall|x: int| powers.to_set().contains(x) implies residues.contains(x) by {
                let i = choose|i: int| 0 <= i < powers.len() && powers[i] == x;
                vstd::arithmetic::div_mod::lemma_mod_bound(pow(GENERATOR as int, i as nat), d);
            }
        }
        vstd::set_lib::lemma_len_subset(powers.to_set(), residues);
    }
}

/// The modulus has no divisor but one and itself.
pub proof fn law_modulus_is_prime(d: int)
    requires
        1 < d < FIELD_MODULUS,
    ensures
        (FIELD_MODULUS as int) % d != 0,
{
    let p = FIELD_MODULUS as int;
    if p % d == 0 {
        lemma_fundamental_div_mod(p, d);
        let q = p / d;
        if d < 0x1_0000_0000 {
            lemma_no_small_divisor(d);
        } else {
            assert(1 < q < 0x1_0000_0000) by (nonlinear_arith)
                requires
                    p == d * q,
                    0x1_0000_0000 <= d < p,
                    p == 0xffff_ffff_0000_0001,
            ;
            lemma_mod_multiples_basic(d, q);
            lemma_no_small_divisor(q);
        }
    }
}

/// The least positive number whose product with `a` stands for zero, from `k` on.
proof fn least_annihilator(a: int, k: int) -> (n: int)
    requires
        0 < k <= FIELD_MODULUS,
        forall|i: int| 0 < i < k ==> !#[trigger] vanishes(a * i),
    ensures
        k <= n <= FIELD_MODULUS,
        vanishes(a * n),
        forall|i: int| 0 < i < n ==> !#[trigger] vanishes(a * i),
    decreases FIELD_MODULUS - k,
{
    if vanishes(a * k) {
        k
    } else {
        assert(vanishes(a * FIELD_MODULUS)) by {
            lemma_mod_multiples_basic(a, FIELD_MODULUS as int);
        }
        least_annihilator(a, k + 1)
    }
}

/// What is left of a number that annihilates after division by one that does,
/// annihilates too.
proof fn lemma_remainder_annihilates(a: int, n: int, x: int)
    requires
        n > 0,
        vanishes(a * n),
        vanishes(a * x),
    ensures
        vanishes(a * (x % n)),
{
    let p = FIELD_MODULUS as int;
    lemma_fundamental_div_mod(x, n);
    let q = x / n;
    let r = x % n;
    assert(a * r == a * x - (a * n) * q) by (nonlinear_arith)
        requires
            x == n * q + r,
    ;
    lemma_mul_mod_noop(a * n, q, p);
    assert(((a * n) * q) % p == 0) by {
        assert(0 * (q % p) == 0);
    }
    lemma_sub_mod_noop(a * x, (a * n) * q, p);
}

/// A product stands for zero only where a factor does.
pub proof fn law_no_zero_divisors(a: int, b: int)
    requires
        vanishes(a * b),
    ensures
        vanishes(a) || vanishes(b),
{
    let p = FIELD_MODULUS as int;
    let n = least_annihilator(a, 1);
    assert(vanishes(a * p)) by {
        lemma_mod_multiples_basic(a, p);
    }
    lemma_remainder_annihilates(a, n, p);
    vstd::arithmetic::div_mod::lemma_mod_bound(p, n);
    lemma_remainder_annihilates(a, n, b);
    vstd::arithmetic::div_mod::lemma_mod_bound(b, n);
    assert(p % n == 0);
    assert(b % n == 0);
    if n == 1 {
        assert(a * 1 == a);
    } else if n < p {
        law_modulus_is_prime(n);
    } else {
        assert(b % p == 0);
    }
}

/// Whatever does not stand for zero has an inverse.
pub proof fn law_inverses_exist(a: int) -> (b: int)
    requires
        0 < a < FIELD_MODULUS,
    ensures
        0 <= b < FIELD_MODULUS,
        (a * b) % (FIELD_MODULUS as int) == 1,
    decreases a,
{
    let p = FIELD_MODULUS as int;
    if a == 1 {
        1
    } else {
        let q = p / a;
        let r = p % a;
        lemma_fundamental_div_mod(p, a);
        lemma_mod_bound(p, a);
        law_modulus_is_prime(a);
        let c = law_inverses_exist(r);
        let b = (-(q * c)) % p;
        lemma_mod_bound(-(q * c), p);
        // a * (-(q * c)) is r * c less p * c.
        assert(a * (-(q * c)) == r * c + p * (-c)) by (nonlinear_arith)
            requires
                p == a * q + r,
        ;
        vstd::arithmetic::div_mod::lemma_mul_mod_noop_right(a, -(q * c), p);
        vstd::arithmetic::div_mod::lemma_mod_multiples_vanish(-c, r * c, p);
        b
    }
}

} // verus!
