//! What the relation guarantees of a row that meets it.

use vstd::prelude::*;

use crate::ccs::{
    address_rows, call_method_rows, enter_constructor_rows, enter_method_rows, new_utxo_rows,
    non_execution_rows, nonempty_stack_row, one_hot_row, padding_rows, register_method_rows,
    relation_rows, return_rows, stack_rows, transition_rows, yield_begin_rows,
};
use crate::commitment::commitment_rows;
use crate::field::{residue, vanishes, FIELD_MODULUS};
use crate::layout::{bit_of, lemma_bit_of, name_of, width_of, COLUMN_COUNT, COL_ONE, ROW_WIDTH};
use crate::memory::value_of;
use crate::prime::law_no_zero_divisors;
use crate::range_check::{
    bit, boolean_row, column_rows, range_rows, recomposition, recomposition_row,
};
use crate::relation::{
    at, gated, linear, partial_sum, product, satisfied, sum, Equation, Term,
};
use crate::transaction::boundary_rows;
use vstd::arithmetic::div_mod::{
    lemma_add_mod_noop, lemma_fundamental_div_mod, lemma_fundamental_div_mod_converse,
    lemma_mod_bound, lemma_mul_mod_noop, lemma_sub_mod_noop,
};
use vstd::arithmetic::power2::{
    lemma2_to64, lemma_pow2_adds, lemma_pow2_pos, lemma_pow2_strictly_increases, lemma_pow2_unfold,
    pow2,
};

verus! {

/// Whether a row meets the relation, with one as its public constant.
pub open spec fn valid_row(z: Seq<u64>, h: spec_fn([u64; 4], [u64; 8]) -> [u64; 4]) -> bool {
    &&& z.len() == ROW_WIDTH
    &&& value_of(z, COL_ONE) == 1
    &&& satisfied(relation_rows(), z, h)
}

/// Whether two integers stand for the same field element.
pub open spec fn same(a: int, b: int) -> bool {
    a % (FIELD_MODULUS as int) == b % (FIELD_MODULUS as int)
}

/// Sum of the first `n` terms over canonical values.
pub open spec fn value_sum(terms: Seq<Term>, z: Seq<u64>, n: int) -> int
    decreases n,
{
    if n <= 0 {
        0
    } else {
        value_sum(terms, z, n - 1) + terms[n - 1].1 * value_of(z, terms[n - 1].0)
    }
}

pub(crate) proof fn lemma_same_product(a: int, b: int, c: int, d: int)
    requires
        same(a, c),
        same(b, d),
    ensures
        same(a * b, c * d),
{
    lemma_mul_mod_noop(a, b, FIELD_MODULUS as int);
    lemma_mul_mod_noop(c, d, FIELD_MODULUS as int);
}

pub(crate) proof fn lemma_same_sum(a: int, b: int, c: int, d: int)
    requires
        same(a, c),
        same(b, d),
    ensures
        same(a + b, c + d),
{
    lemma_add_mod_noop(a, b, FIELD_MODULUS as int);
    lemma_add_mod_noop(c, d, FIELD_MODULUS as int);
}

pub(crate) proof fn lemma_same_difference(a: int, b: int, c: int, d: int)
    requires
        same(a, c),
        same(b, d),
    ensures
        same(a - b, c - d),
{
    lemma_sub_mod_noop(a, b, FIELD_MODULUS as int);
    lemma_sub_mod_noop(c, d, FIELD_MODULUS as int);
}

pub(crate) proof fn lemma_residue_same(x: u64)
    ensures
        same(x as int, residue(x as int) as int),
        residue(x as int) < FIELD_MODULUS,
{
    let p = FIELD_MODULUS as int;
    lemma_mod_bound(x as int, p);
    vstd::arithmetic::div_mod::lemma_mod_twice(x as int, p);
}

/// A small integer stands for zero only where it is zero.
pub(crate) proof fn lemma_small_zero(x: int)
    requires
        vanishes(x),
        -(FIELD_MODULUS as int) < x < FIELD_MODULUS,
    ensures
        x == 0,
{
    lemma_fundamental_div_mod(x, FIELD_MODULUS as int);
    let q = x / (FIELD_MODULUS as int);
    assert(q == 0) by (nonlinear_arith)
        requires
            x == 0xffff_ffff_0000_0001 * q,
            -0xffff_ffff_0000_0001 < x < 0xffff_ffff_0000_0001,
    ;
}

pub(crate) proof fn lemma_value_sum(terms: Seq<Term>, z: Seq<u64>, n: int)
    requires
        0 <= n <= terms.len(),
    ensures
        same(partial_sum(terms, z, n), value_sum(terms, z, n)),
    decreases n,
{
    if n > 0 {
        lemma_value_sum(terms, z, n - 1);
        let k = terms[n - 1].1 as int;
        let x = at(z, terms[n - 1].0);
        lemma_residue_same(x);
        lemma_same_product(k, x as int, k, residue(x as int) as int);
        lemma_same_sum(
            partial_sum(terms, z, n - 1),
            k * x,
            value_sum(terms, z, n - 1),
            k * residue(x as int),
        );
    }
}

pub(crate) proof fn lemma_sum1(z: Seq<u64>, c0: usize, k0: i64)
    ensures
        value_sum(seq![(c0, k0)], z, 1) == k0 * value_of(z, c0),
{
    reveal_with_fuel(value_sum, 2);
}

pub(crate) proof fn lemma_sum2(z: Seq<u64>, c0: usize, k0: i64, c1: usize, k1: i64)
    ensures
        value_sum(seq![(c0, k0), (c1, k1)], z, 2) == k0 * value_of(z, c0) + k1 * value_of(z, c1),
{
    reveal_with_fuel(value_sum, 3);
}

pub(crate) proof fn lemma_sum3(
    z: Seq<u64>,
    c0: usize,
    k0: i64,
    c1: usize,
    k1: i64,
    c2: usize,
    k2: i64,
)
    ensures
        value_sum(
            seq![(c0, k0), (c1, k1), (c2, k2)],
            z,
            3,
        ) == k0 * value_of(z, c0) + k1 * value_of(z, c1)
            + k2 * value_of(z, c2),
{
    reveal_with_fuel(value_sum, 4);
}

pub(crate) proof fn lemma_sum4(
    z: Seq<u64>,
    c0: usize,
    k0: i64,
    c1: usize,
    k1: i64,
    c2: usize,
    k2: i64,
    c3: usize,
    k3: i64,
)
    ensures
        value_sum(
            seq![(c0, k0), (c1, k1), (c2, k2), (c3, k3)],
            z,
            4,
        ) == k0 * value_of(z, c0) + k1 * value_of(z, c1)
            + k2 * value_of(z, c2) + k3 * value_of(z, c3),
{
    reveal_with_fuel(value_sum, 5);
}

pub(crate) proof fn lemma_sum5(
    z: Seq<u64>,
    c0: usize,
    k0: i64,
    c1: usize,
    k1: i64,
    c2: usize,
    k2: i64,
    c3: usize,
    k3: i64,
    c4: usize,
    k4: i64,
)
    ensures
        value_sum(
            seq![(c0, k0), (c1, k1), (c2, k2), (c3, k3), (c4, k4)],
            z,
            5,
        ) == k0 * value_of(z, c0) + k1 * value_of(z, c1)
            + k2 * value_of(z, c2) + k3 * value_of(z, c3)
            + k4 * value_of(z, c4),
{
    reveal_with_fuel(value_sum, 6);
}

/// What a product of sums says of the canonical values.
pub(crate) proof fn lemma_product_holds(
    label: &'static str,
    a: Seq<Term>,
    b: Seq<Term>,
    c: Seq<Term>,
    z: Seq<u64>,
    h: spec_fn([u64; 4], [u64; 8]) -> [u64; 4],
)
    ensures
        product(label, a, b, c).holds(z, h) <==> vanishes(
            value_sum(a, z, a.len() as int) * value_sum(b, z, b.len() as int) - value_sum(
                c,
                z,
                c.len() as int,
            ),
        ),
{
    reveal(Equation::holds);
    let x = value_sum(a, z, a.len() as int);
    let y = value_sum(b, z, b.len() as int);
    let w = value_sum(c, z, c.len() as int);
    lemma_value_sum(a, z, a.len() as int);
    lemma_value_sum(b, z, b.len() as int);
    lemma_value_sum(c, z, c.len() as int);
    lemma_same_product(sum(a, z), sum(b, z), x, y);
    lemma_same_difference(sum(a, z) * sum(b, z), sum(c, z), x * y, w);
}

/// What a linear equation says of the canonical values.
pub(crate) proof fn lemma_linear_holds(
    label: &'static str,
    terms: Seq<Term>,
    z: Seq<u64>,
    h: spec_fn([u64; 4], [u64; 8]) -> [u64; 4],
)
    requires
        value_of(z, COL_ONE) == 1,
    ensures
        linear(label, terms).holds(z, h) <==> vanishes(value_sum(terms, z, terms.len() as int)),
{
    let one = seq![(COL_ONE, 1i64)];
    let none = Seq::<Term>::empty();
    lemma_product_holds(label, terms, one, none, z, h);
    reveal_with_fuel(value_sum, 2);
    assert(value_sum(one, z, 1) == 1);
    assert(value_sum(none, z, 0) == 0);
    let x = value_sum(terms, z, terms.len() as int);
    assert(x * 1 - 0 == x) by (nonlinear_arith);
}

/// What a gated equation says where its gate is open.
pub(crate) proof fn lemma_gated_holds(
    label: &'static str,
    gate: usize,
    terms: Seq<Term>,
    z: Seq<u64>,
    h: spec_fn([u64; 4], [u64; 8]) -> [u64; 4],
)
    requires
        value_of(z, gate) == 1,
    ensures
        gated(label, gate, terms).holds(z, h) <==> vanishes(
            value_sum(terms, z, terms.len() as int),
        ),
{
    let open = seq![(gate, 1i64)];
    let none = Seq::<Term>::empty();
    lemma_product_holds(label, open, terms, none, z, h);
    reveal_with_fuel(value_sum, 2);
    assert(value_sum(open, z, 1) == 1);
    assert(value_sum(none, z, 0) == 0);
    let x = value_sum(terms, z, terms.len() as int);
    assert(1 * x - 0 == x) by (nonlinear_arith);
}

/// Equations behind one another hold exactly where both parts hold.
pub(crate) proof fn lemma_concat(
    a: Seq<Equation>,
    b: Seq<Equation>,
    z: Seq<u64>,
    h: spec_fn([u64; 4], [u64; 8]) -> [u64; 4],
)
    ensures
        satisfied(a + b, z, h) <==> satisfied(a, z, h) && satisfied(b, z, h),
{
    let all = a + b;
    if satisfied(all, z, h) {
        assert forall|i: int| 0 <= i < a.len() implies (#[trigger] a[i]).holds(z, h) by {
            assert(all[i] == a[i]);
            assert(all[i].holds(z, h));
        }
        assert forall|i: int| 0 <= i < b.len() implies (#[trigger] b[i]).holds(z, h) by {
            assert(all[a.len() + i] == b[i]);
            assert(all[a.len() + i].holds(z, h));
        }
    }
    if satisfied(a, z, h) && satisfied(b, z, h) {
        assert forall|i: int| 0 <= i < all.len() implies (#[trigger] all[i]).holds(z, h) by {
            if i < a.len() {
                assert(all[i] == a[i]);
            } else {
                assert(all[i] == b[i - a.len()]);
            }
        }
    }
}

/// The parts of the relation, each met.
pub open spec fn sections_hold(z: Seq<u64>, h: spec_fn([u64; 4], [u64; 8]) -> [u64; 4]) -> bool {
    &&& one_hot_row().holds(z, h)
    &&& nonempty_stack_row().holds(z, h)
    &&& satisfied(padding_rows(), z, h)
    &&& satisfied(non_execution_rows(), z, h)
    &&& satisfied(boundary_rows(), z, h)
    &&& satisfied(transition_rows(), z, h)
    &&& satisfied(address_rows(), z, h)
    &&& satisfied(stack_rows(), z, h)
    &&& satisfied(new_utxo_rows(), z, h)
    &&& satisfied(enter_constructor_rows(), z, h)
    &&& satisfied(yield_begin_rows(), z, h)
    &&& satisfied(register_method_rows(), z, h)
    &&& satisfied(return_rows(), z, h)
    &&& satisfied(call_method_rows(), z, h)
    &&& satisfied(enter_method_rows(), z, h)
    &&& satisfied(commitment_rows(), z, h)
    &&& satisfied(range_rows(COLUMN_COUNT as int), z, h)
}

/// [`lemma_concat`] of four parts.
pub(crate) proof fn lemma_concat4(
    a: Seq<Equation>,
    b: Seq<Equation>,
    c: Seq<Equation>,
    d: Seq<Equation>,
    z: Seq<u64>,
    h: spec_fn([u64; 4], [u64; 8]) -> [u64; 4],
)
    ensures
        satisfied(a + b + c + d, z, h) <==> satisfied(a, z, h) && satisfied(b, z, h) && satisfied(
            c,
            z,
            h,
        ) && satisfied(d, z, h),
{
    lemma_concat(a + b + c, d, z, h);
    lemma_concat(a + b, c, z, h);
    lemma_concat(a, b, z, h);
}

/// [`lemma_concat`] of sixteen parts.
proof fn lemma_concat16(
    p: Seq<Seq<Equation>>,
    z: Seq<u64>,
    h: spec_fn([u64; 4], [u64; 8]) -> [u64; 4],
)
    requires
        p.len() == 16,
    ensures
        satisfied(
            p[0] + p[1] + p[2] + p[3] + p[4] + p[5] + p[6] + p[7] + p[8] + p[9] + p[10] + p[11]
                + p[12] + p[13] + p[14] + p[15],
            z,
            h,
        ) <==> (forall|i: int| 0 <= i < 16 ==> satisfied(#[trigger] p[i], z, h)),
{
    let a = p[0] + p[1] + p[2] + p[3];
    let b = a + p[4] + p[5] + p[6];
    let c = b + p[7] + p[8] + p[9];
    let d = c + p[10] + p[11] + p[12];
    lemma_concat4(d, p[13], p[14], p[15], z, h);
    lemma_concat4(c, p[10], p[11], p[12], z, h);
    lemma_concat4(b, p[7], p[8], p[9], z, h);
    lemma_concat4(a, p[4], p[5], p[6], z, h);
    lemma_concat4(p[0], p[1], p[2], p[3], z, h);
}

/// The relation is met exactly where its parts are.
pub(crate) proof fn lemma_sections(z: Seq<u64>, h: spec_fn([u64; 4], [u64; 8]) -> [u64; 4])
    ensures
        satisfied(relation_rows(), z, h) <==> sections_hold(z, h),
{
    let s0 = seq![one_hot_row(), nonempty_stack_row()];
    let p = seq![
        s0,
        padding_rows(),
        non_execution_rows(),
        boundary_rows(),
        transition_rows(),
        address_rows(),
        stack_rows(),
        new_utxo_rows(),
        enter_constructor_rows(),
        yield_begin_rows(),
        register_method_rows(),
        return_rows(),
        call_method_rows(),
        enter_method_rows(),
        commitment_rows(),
        range_rows(COLUMN_COUNT as int),
    ];
    lemma_concat16(p, z, h);
    assert(satisfied(s0, z, h) <==> one_hot_row().holds(z, h) && nonempty_stack_row().holds(z, h))
        by {
        assert(s0[0] == one_hot_row());
        assert(s0[1] == nonempty_stack_row());
        if satisfied(s0, z, h) {
            assert(s0[0].holds(z, h));
            assert(s0[1].holds(z, h));
        }
    }
    if sections_hold(z, h) {
        assert forall|i: int| 0 <= i < 16 implies satisfied(#[trigger] p[i], z, h) by {}
    } else if satisfied(relation_rows(), z, h) {
        assert(satisfied(p[0], z, h));
        assert(satisfied(p[1], z, h));
        assert(satisfied(p[2], z, h));
        assert(satisfied(p[3], z, h));
        assert(satisfied(p[4], z, h));
        assert(satisfied(p[5], z, h));
        assert(satisfied(p[6], z, h));
        assert(satisfied(p[7], z, h));
        assert(satisfied(p[8], z, h));
        assert(satisfied(p[9], z, h));
        assert(satisfied(p[10], z, h));
        assert(satisfied(p[11], z, h));
        assert(satisfied(p[12], z, h));
        assert(satisfied(p[13], z, h));
        assert(satisfied(p[14], z, h));
        assert(satisfied(p[15], z, h));
    }
}

/// The rows that bound a column are among those that bound the first columns.
proof fn lemma_column_satisfied(
    z: Seq<u64>,
    h: spec_fn([u64; 4], [u64; 8]) -> [u64; 4],
    n: int,
    c: int,
)
    requires
        0 <= c < n,
        satisfied(range_rows(n), z, h),
    ensures
        satisfied(column_rows(c), z, h),
    decreases n,
{
    lemma_concat(range_rows(n - 1), column_rows(n - 1), z, h);
    if c < n - 1 {
        lemma_column_satisfied(z, h, n - 1, c);
    }
}

/// A column whose square is itself holds zero or one.
proof fn lemma_boolean(
    label: &'static str,
    column: usize,
    z: Seq<u64>,
    h: spec_fn([u64; 4], [u64; 8]) -> [u64; 4],
)
    requires
        boolean_row(label, column).holds(z, h),
    ensures
        value_of(z, column) == 0 || value_of(z, column) == 1,
{
    let t = seq![(column, 1i64)];
    lemma_product_holds(label, t, t, t, z, h);
    reveal_with_fuel(value_sum, 2);
    let v = value_of(z, column) as int;
    assert(value_sum(t, z, 1) == v);
    lemma_residue_same(at(z, column));
    assert(v * v - v == v * (v - 1)) by (nonlinear_arith);
    law_no_zero_divisors(v, v - 1);
    if vanishes(v) {
        lemma_small_zero(v);
    } else {
        lemma_small_zero(v - 1);
    }
}

/// The number that the first `k` decomposition bits of a column stand for.
pub open spec fn bit_sum(z: Seq<u64>, column: int, k: int) -> int
    decreases k,
{
    if k <= 0 {
        0
    } else {
        bit_sum(z, column, k - 1) + pow2((k - 1) as nat) * value_of(
            z,
            bit_of(column, k - 1) as usize,
        )
    }
}

proof fn lemma_bit_sum_bound(z: Seq<u64>, column: int, k: int)
    requires
        0 <= k,
        forall|j: int|
            0 <= j < k ==> #[trigger] value_of(z, bit_of(column, j) as usize) <= 1,
    ensures
        0 <= bit_sum(z, column, k) < pow2(k as nat),
    decreases k,
{
    lemma2_to64();
    if k > 0 {
        lemma_bit_sum_bound(z, column, k - 1);
        lemma_pow2_unfold(k as nat);
        let v = value_of(z, bit_of(column, k - 1) as usize);
        let w = pow2((k - 1) as nat) as int;
        assert(0 <= w * v <= w) by (nonlinear_arith)
            requires
                0 <= v <= 1,
                0 <= w,
        ;
    }
}

/// A bit of the number is the bit at its place.
proof fn lemma_bit_sum_bit(z: Seq<u64>, column: int, k: int, j: int)
    requires
        0 <= j < k,
        forall|i: int|
            0 <= i < k ==> #[trigger] value_of(z, bit_of(column, i) as usize) <= 1,
    ensures
        (bit_sum(z, column, k) / (pow2(j as nat) as int)) % 2 == value_of(
            z,
            bit_of(column, j) as usize,
        ),
    decreases k,
{
    let w = pow2(j as nat) as int;
    lemma_pow2_pos(j as nat);
    let v = value_of(z, bit_of(column, k - 1) as usize) as int;
    assert(value_of(z, bit_of(column, k - 1) as usize) <= 1);
    lemma_bit_sum_bound(z, column, k - 1);
    let low = bit_sum(z, column, k - 1);
    if k == j + 1 {
        assert(bit_sum(z, column, k) == v * w + low) by (nonlinear_arith)
            requires
                bit_sum(z, column, k) == low + w * v,
        ;
        lemma_fundamental_div_mod_converse(bit_sum(z, column, k), w, v, low);
    } else {
        lemma_bit_sum_bit(z, column, k - 1, j);
        let s = pow2((k - 1 - j - 1) as nat) as int;
        lemma_pow2_adds(j as nat, (k - 1 - j) as nat);
        lemma_pow2_unfold((k - 1 - j) as nat);
        assert(pow2((k - 1) as nat) == w * (2 * s));
        let q = low / w;
        let r = low % w;
        lemma_fundamental_div_mod(low, w);
        lemma_mod_bound(low, w);
        assert(bit_sum(z, column, k) == (q + 2 * (s * v)) * w + r) by (nonlinear_arith)
            requires
                bit_sum(z, column, k) == low + (w * (2 * s)) * v,
                low == w * q + r,
        ;
        lemma_fundamental_div_mod_converse(bit_sum(z, column, k), w, q + 2 * (s * v), r);
        assert((q + 2 * (s * v)) % 2 == q % 2);
    }
}

pub(crate) proof fn lemma_recomposition_sum(z: Seq<u64>, column: int, k: int)
    requires
        0 <= column < COLUMN_COUNT,
        0 <= k <= 32,
    ensures
        value_sum(recomposition(column, k + 1), z, k + 1) == value_of(z, column as usize) - bit_sum(
            z,
            column,
            k,
        ),
    decreases k,
{
    let terms = recomposition(column, k + 1);
    if k == 0 {
        lemma_sum1(z, column as usize, 1);
        assert(terms =~= seq![(column as usize, 1i64)]);
    } else {
        lemma_recomposition_sum(z, column, k - 1);
        lemma_value_sum_prefix(recomposition(column, k), terms, z, k);
        lemma2_to64();
        if k - 1 < 32 {
            lemma_pow2_strictly_increases((k - 1) as nat, 32);
        }
        let w = pow2((k - 1) as nat) as int;
        assert(terms[k].1 == -w);
        let v = value_of(z, bit_of(column, k - 1) as usize) as int;
        assert(terms[k].0 == bit_of(column, k - 1) as usize);
        assert(value_sum(terms, z, k + 1) == value_sum(terms, z, k) + (-w) * v);
        assert((-w) * v == -(w * v)) by (nonlinear_arith);
        assert(bit_sum(z, column, k) == bit_sum(z, column, k - 1) + w * v);
    }
}

pub(crate) proof fn lemma_value_sum_prefix(a: Seq<Term>, b: Seq<Term>, z: Seq<u64>, n: int)
    requires
        0 <= n <= a.len(),
        n <= b.len(),
        forall|i: int| 0 <= i < n ==> #[trigger] a[i] == b[i],
    ensures
        value_sum(a, z, n) == value_sum(b, z, n),
    decreases n,
{
    if n > 0 {
        lemma_value_sum_prefix(a, b, z, n - 1);
        assert(a[n - 1] == b[n - 1]);
    }
}

/// In a row that meets the relation, every bounded column is in range, and its
/// decomposition bits are the bits of its value.
pub proof fn law_bounded_columns_are_in_range(
    z: Seq<u64>,
    h: spec_fn([u64; 4], [u64; 8]) -> [u64; 4],
    column: int,
)
    requires
        valid_row(z, h),
        0 <= column < COLUMN_COUNT,
        width_of(column) > 0,
    ensures
        value_of(z, column as usize) < pow2(width_of(column)),
        width_of(column) > 1 ==> (forall|j: int|
            0 <= j < width_of(column) ==> #[trigger] value_of(z, bit_of(column, j) as usize) == bit(
                value_of(z, column as usize),
                j as nat,
            )),
{
    lemma_sections(z, h);
    lemma_column_satisfied(z, h, COLUMN_COUNT as int, column);
    lemma2_to64();
    let rows = column_rows(column);
    let w = width_of(column) as int;
    if w == 1 {
        assert(rows[0].holds(z, h));
        lemma_boolean(name_of(column), column as usize, z, h);
    } else {
        assert forall|j: int| 0 <= j < w implies #[trigger] value_of(
            z,
            bit_of(column, j) as usize,
        ) <= 1 by {
            lemma_bit_of(column, j);
            assert(rows[j].holds(z, h));
            lemma_boolean(name_of(column), bit_of(column, j) as usize, z, h);
        }
        assert(rows[w] == recomposition_row(column));
        assert(rows[w].holds(z, h));
        lemma_linear_holds(name_of(column), recomposition(column, w + 1), z, h);
        lemma_recomposition_sum(z, column, w);
        lemma_bit_sum_bound(z, column, w);
        if w < 32 {
            lemma_pow2_strictly_increases(w as nat, 32);
        }
        lemma_residue_same(at(z, column as usize));
        lemma_small_zero(value_of(z, column as usize) - bit_sum(z, column, w));
        assert forall|j: int| 0 <= j < w implies #[trigger] value_of(
            z,
            bit_of(column, j) as usize,
        ) == bit(value_of(z, column as usize), j as nat) by {
            lemma_bit_sum_bit(z, column, w, j);
        }
    }
}

} // verus!
