//! What the part of the relation on ranges says of the row of a witness record.

use vstd::prelude::*;

use crate::exactness::{column_ranged, ranged};
use crate::field::FIELD_MODULUS;
use crate::layout::{bit_of, lemma_bit_of, name_of, width_of, COLUMN_COUNT, COL_ONE, ROW_WIDTH};
use crate::memory::value_of;
use crate::range_check::{
    bit, boolean_row, column_rows, range_rows, recomposition, recomposition_row, with_bits,
};
use crate::relation::satisfied;
use crate::soundness::{
    bit_sum, law_bounded_columns_are_in_range, lemma_concat, lemma_linear_holds,
    lemma_product_holds, lemma_recomposition_sum, lemma_small_zero, lemma_sum1, valid_row,
};
use crate::step::Wit;
use crate::witness::witness_row;
use vstd::arithmetic::div_mod::{lemma_fundamental_div_mod, lemma_mod_bound, lemma_small_mod};
use vstd::arithmetic::power2::{
    lemma2_to64, lemma_pow2_pos, lemma_pow2_strictly_increases, lemma_pow2_unfold, pow2,
};

verus! {

/// Whether every bounded column of a row fits its width.
pub open spec fn in_range(z: Seq<u64>) -> bool {
    forall|c: int|
        0 <= c < COLUMN_COUNT && width_of(c) > 0 ==> (#[trigger] z[c]) < pow2(width_of(c))
}

/// The weighted sum of the first `k` bits of a number is the number modulo `2^k`.
proof fn lemma_bits_restore(z: Seq<u64>, column: int, v: u64, k: int)
    requires
        0 <= k,
        forall|j: int|
            0 <= j < k ==> #[trigger] value_of(z, bit_of(column, j) as usize) == bit(v, j as nat),
    ensures
        bit_sum(z, column, k) == v as int % (pow2(k as nat) as int),
    decreases k,
{
    lemma2_to64();
    if k > 0 {
        lemma_bits_restore(z, column, v, k - 1);
        lemma_pow2_unfold(k as nat);
        lemma_pow2_pos((k - 1) as nat);
        lemma_pow2_pos(k as nat);
        let m = pow2((k - 1) as nat) as int;
        let q = v as int / m;
        let r = v as int % m;
        lemma_fundamental_div_mod(v as int, m);
        lemma_mod_bound(v as int, m);
        assert(value_of(z, bit_of(column, k - 1) as usize) == bit(v, (k - 1) as nat));
        let b = q % 2;
        let t = q / 2;
        assert(q == 2 * t + b);
        assert(0 <= m * b + r < 2 * m) by (nonlinear_arith)
            requires
                0 <= b <= 1,
                0 <= r < m,
        ;
        assert(v == (2 * m) * t + (m * b + r)) by (nonlinear_arith)
            requires
                v == m * q + r,
                q == 2 * t + b,
        ;
        vstd::arithmetic::div_mod::lemma_fundamental_div_mod_converse(
            v as int,
            2 * m,
            t,
            m * b + r,
        );
    }
}

/// An equation on a Boolean column holds of a bit.
proof fn lemma_boolean_holds(
    label: &'static str,
    column: usize,
    z: Seq<u64>,
    h: spec_fn([u64; 4], [u64; 8]) -> [u64; 4],
)
    requires
        value_of(z, column) <= 1,
    ensures
        boolean_row(label, column).holds(z, h),
{
    let t = seq![(column, 1i64)];
    lemma_product_holds(label, t, t, t, z, h);
    lemma_sum1(z, column, 1);
    let v = value_of(z, column) as int;
    assert(v * v == v) by (nonlinear_arith)
        requires
            0 <= v <= 1,
    ;
    lemma_small_zero(0);
}

/// A column in range, with its bits assigned, meets the rows that bound it.
proof fn lemma_column_holds(
    row: Seq<u64>,
    h: spec_fn([u64; 4], [u64; 8]) -> [u64; 4],
    c: int,
)
    requires
        row.len() == ROW_WIDTH,
        value_of(with_bits(row, COLUMN_COUNT as int), COL_ONE) == 1,
        0 <= c < COLUMN_COUNT,
        row[c] < pow2(width_of(c)),
        0 < width_of(c) <= 32,
    ensures
        satisfied(column_rows(c), with_bits(row, COLUMN_COUNT as int), h),
        column_ranged(with_bits(row, COLUMN_COUNT as int), c),
{
    let z = with_bits(row, COLUMN_COUNT as int);
    let v = row[c];
    let n = width_of(c) as int;
    lemma2_to64();
    if n < 32 {
        lemma_pow2_strictly_increases(n as nat, 32);
    }
    lemma_small_mod(v as nat, FIELD_MODULUS as nat);
    assert(value_of(z, c as usize) == v);
    if n == 1 {
        lemma_boolean_holds(name_of(c), c as usize, z, h);
    } else {
        assert forall|j: int| 0 <= j < n implies #[trigger] value_of(z, bit_of(c, j) as usize)
            == bit(v, j as nat) by {
            lemma_bit_of(c, j);
            let place = bit_of(c, j);
            assert(z[place] == bit(v, j as nat));
            lemma_small_mod(bit(v, j as nat) as nat, FIELD_MODULUS as nat);
        }
        assert forall|j: int| 0 <= j < n implies (#[trigger] column_rows(c)[j]).holds(z, h) by {
            assert(value_of(z, bit_of(c, j) as usize) == bit(v, j as nat));
            lemma_boolean_holds(name_of(c), bit_of(c, j) as usize, z, h);
        }
        lemma_bits_restore(z, c, v, n);
        lemma_small_mod(v as nat, pow2(n as nat));
        lemma_linear_holds(name_of(c), recomposition(c, n + 1), z, h);
        lemma_recomposition_sum(z, c, n);
        lemma_small_zero(0);
        assert(column_rows(c)[n] == recomposition_row(c));
    }
}

/// The rows that bound the first `n` columns hold where those of each column do.
proof fn lemma_range_parts(
    z: Seq<u64>,
    h: spec_fn([u64; 4], [u64; 8]) -> [u64; 4],
    n: int,
)
    requires
        0 <= n,
        forall|c: int| 0 <= c < n ==> satisfied(#[trigger] column_rows(c), z, h),
    ensures
        satisfied(range_rows(n), z, h),
    decreases n,
{
    if n > 0 {
        lemma_range_parts(z, h, n - 1);
        assert(satisfied(column_rows(n - 1), z, h));
        lemma_concat(range_rows(n - 1), column_rows(n - 1), z, h);
    }
}

/// A row whose columns are in range and whose bits are assigned meets the rows that bound
/// its columns.
pub(crate) proof fn lemma_range(row: Seq<u64>, h: spec_fn([u64; 4], [u64; 8]) -> [u64; 4])
    requires
        row.len() == ROW_WIDTH,
        value_of(with_bits(row, COLUMN_COUNT as int), COL_ONE) == 1,
        in_range(with_bits(row, COLUMN_COUNT as int)),
    ensures
        satisfied(range_rows(COLUMN_COUNT as int), with_bits(row, COLUMN_COUNT as int), h),
        ranged(with_bits(row, COLUMN_COUNT as int)),
{
    let z = with_bits(row, COLUMN_COUNT as int);
    assert forall|c: int| 0 <= c < COLUMN_COUNT implies satisfied(
        #[trigger] column_rows(c),
        z,
        h,
    ) by {
        if width_of(c) > 0 {
            assert(z[c] < pow2(width_of(c)));
            lemma_column_holds(row, h, c);
        }
    }
    assert forall|c: int|
        0 <= c < COLUMN_COUNT && width_of(c) > 0 implies #[trigger] column_ranged(z, c) by {
        assert(z[c] < pow2(width_of(c)));
        lemma_column_holds(row, h, c);
    }
    lemma_range_parts(z, h, COLUMN_COUNT as int);
}

/// The Boolean columns of the row of a witness record hold zero or one.
proof fn lemma_flags_are_bits(w: Wit, h: spec_fn([u64; 4], [u64; 8]) -> [u64; 4], c: int)
    requires
        0 <= c < COLUMN_COUNT,
        width_of(c) == 1,
    ensures
        witness_row(w, h)[c] <= 1,
{
}

/// A row of a witness record that meets the relation is in range.
pub(crate) proof fn lemma_valid_in_range(w: Wit, h: spec_fn([u64; 4], [u64; 8]) -> [u64; 4])
    requires
        valid_row(witness_row(w, h), h),
    ensures
        in_range(witness_row(w, h)),
        ranged(witness_row(w, h)),
{
    let z = witness_row(w, h);
    let p = FIELD_MODULUS as int;
    lemma2_to64();
    assert forall|c: int|
        0 <= c < COLUMN_COUNT && width_of(c) > 0 implies #[trigger] column_ranged(z, c) by {
        law_bounded_columns_are_in_range(z, h, c);
    }
    assert forall|c: int| 0 <= c < COLUMN_COUNT && width_of(c) > 0 implies (#[trigger] z[c])
        < pow2(width_of(c)) by {
        assert(column_ranged(z, c));
        if width_of(c) == 1 {
            lemma_flags_are_bits(w, h, c);
        } else {
            let r = value_of(z, c as usize);
            lemma_bit_of(c, 0);
            assert(value_of(z, bit_of(c, 0) as usize) == bit(r, 0));
            assert(z[bit_of(c, 0)] == bit(z[c], 0));
            vstd::arithmetic::div_mod::lemma_div_basics(z[c] as int);
            vstd::arithmetic::div_mod::lemma_div_basics(r as int);
            lemma_small_mod(bit(z[c], 0) as nat, p as nat);
            assert(z[c] % 2 == r % 2);
            if z[c] >= p {
                vstd::arithmetic::div_mod::lemma_fundamental_div_mod_converse(
                    z[c] as int,
                    p,
                    1,
                    z[c] - p,
                );
            } else {
                lemma_small_mod(z[c] as nat, p as nat);
            }
        }
    }
}

} // verus!
