//! The opcode that a row selects.

use vstd::prelude::*;

use crate::ccs::{constant_row, equal_row, one_hot_row};
use crate::groups::OpcodeGroup;
use crate::layout::COL_ONE;
use crate::memory::value_of;
use crate::opcode::{opcodes, Opcode, OPCODE_COUNT};
use crate::relation::{at, gated, product, Term};
use crate::soundness::{
    law_bounded_columns_are_in_range, lemma_gated_holds, lemma_product_holds, lemma_residue_same,
    lemma_sections, lemma_small_zero, lemma_sum1, lemma_sum2, lemma_value_sum_prefix, valid_row,
    value_sum,
};

verus! {

/// Whether a row selects an opcode, and no other.
pub open spec fn selects_only(z: Seq<u64>, op: Opcode) -> bool {
    forall|o: Opcode|
        #[trigger] value_of(z, o.selector()) == (if o == op {
            1u64
        } else {
            0
        })
}

/// Sum of the selectors of those of the first `n` opcodes that belong to a group.
pub open spec fn group_count(group: OpcodeGroup, z: Seq<u64>, n: int) -> int
    decreases n,
{
    if n <= 0 {
        0
    } else if group.has(opcodes()[n - 1]) {
        group_count(group, z, n - 1) + value_of(z, opcodes()[n - 1].selector())
    } else {
        group_count(group, z, n - 1)
    }
}

proof fn lemma_selector_sum(group: OpcodeGroup, z: Seq<u64>, n: int)
    ensures
        value_sum(group.selectors_of(n), z, group.selectors_of(n).len() as int) == group_count(
            group,
            z,
            n,
        ),
    decreases n,
{
    if n > 0 {
        lemma_selector_sum(group, z, n - 1);
        let before = group.selectors_of(n - 1);
        let terms = group.selectors_of(n);
        if group.has(opcodes()[n - 1]) {
            lemma_value_sum_prefix(before, terms, z, before.len() as int);
            assert(terms.last() == (opcodes()[n - 1].selector(), 1i64));
            assert(value_sum(terms, z, terms.len() as int) == value_sum(
                terms,
                z,
                before.len() as int,
            ) + 1 * value_of(z, opcodes()[n - 1].selector()));
        }
    }
}

/// A row that meets the relation selects exactly one opcode.
pub proof fn law_one_opcode_is_selected(
    z: Seq<u64>,
    h: spec_fn([u64; 4], [u64; 8]) -> [u64; 4],
) -> (op: Opcode)
    requires
        valid_row(z, h),
    ensures
        selects_only(z, op),
{
    lemma_sections(z, h);
    let all = OpcodeGroup::All.selectors();
    let one = seq![(COL_ONE, 1i64)];
    lemma_product_holds("opcode selectors are one-hot", all, one, one, z, h);
    lemma_sum1(z, COL_ONE, 1);
    lemma_selector_sum(OpcodeGroup::All, z, OPCODE_COUNT as int);
    let count = group_count(OpcodeGroup::All, z, OPCODE_COUNT as int);
    assert(one_hot_row().holds(z, h));
    assert(count * 1 - 1 == count - 1);
    assert forall|o: Opcode| #[trigger] value_of(z, o.selector()) <= 1 by {
        vstd::arithmetic::power2::lemma2_to64();
        law_bounded_columns_are_in_range(z, h, o.selector() as int);
    }
    lemma_count_bound(z, OPCODE_COUNT as int);
    lemma_small_zero(count - 1);
    let i = lemma_unique(z, OPCODE_COUNT as int);
    let op = opcodes()[i];
    assert forall|o: Opcode|
        #[trigger] value_of(z, o.selector()) == (if o == op {
            1u64
        } else {
            0
        }) by {
        assert(opcodes()[o.position()] == o);
        assert(value_of(z, opcodes()[o.position()].selector()) == (if o.position() == i {
            1u64
        } else {
            0
        }));
        assert(o.position() == i <==> o == op);
    }
    op
}

/// A sum of zeros and ones is at most their number.
proof fn lemma_count_bound(z: Seq<u64>, n: int)
    requires
        0 <= n <= OPCODE_COUNT,
        forall|o: Opcode| #[trigger] value_of(z, o.selector()) <= 1,
    ensures
        0 <= group_count(OpcodeGroup::All, z, n) <= n,
    decreases n,
{
    if n > 0 {
        lemma_count_bound(z, n - 1);
        assert(value_of(z, opcodes()[n - 1].selector()) <= 1);
    }
}

/// A sum of zeros and ones that is one has a single one.
proof fn lemma_unique(z: Seq<u64>, n: int) -> (i: int)
    requires
        0 <= n <= OPCODE_COUNT,
        group_count(OpcodeGroup::All, z, n) == 1,
        forall|o: Opcode| #[trigger] value_of(z, o.selector()) <= 1,
    ensures
        0 <= i < n,
        forall|j: int|
            0 <= j < n ==> value_of(z, (#[trigger] opcodes()[j]).selector()) == (if j == i {
                1u64
            } else {
                0
            }),
    decreases n,
{
    let last = value_of(z, opcodes()[n - 1].selector());
    assert(last <= 1);
    if last == 1 {
        lemma_none(z, n - 1);
        n - 1
    } else {
        lemma_unique(z, n - 1)
    }
}

proof fn lemma_none(z: Seq<u64>, n: int)
    requires
        0 <= n <= OPCODE_COUNT,
        group_count(OpcodeGroup::All, z, n) == 0,
        forall|o: Opcode| #[trigger] value_of(z, o.selector()) <= 1,
    ensures
        forall|j: int| 0 <= j < n ==> value_of(z, (#[trigger] opcodes()[j]).selector()) == 0,
    decreases n,
{
    if n > 0 {
        lemma_count_bound(z, n - 1);
        lemma_none(z, n - 1);
    }
}

proof fn lemma_group_count(group: OpcodeGroup, z: Seq<u64>, op: Opcode, n: int)
    requires
        selects_only(z, op),
        n <= OPCODE_COUNT,
    ensures
        group_count(group, z, n) == (if group.has(op) && op.position() < n {
            1int
        } else {
            0
        }),
    decreases n,
{
    if n > 0 {
        lemma_group_count(group, z, op, n - 1);
        let o = opcodes()[n - 1];
        assert(value_of(z, o.selector()) == (if o == op {
            1u64
        } else {
            0
        }));
        assert(o == op <==> op.position() == n - 1);
    }
}

/// The selectors of a group sum up to one where the selected opcode belongs to it, else
/// to zero.
pub(crate) proof fn lemma_group_sum(group: OpcodeGroup, z: Seq<u64>, op: Opcode)
    requires
        selects_only(z, op),
    ensures
        value_sum(group.selectors(), z, group.selectors().len() as int) == (if group.has(op) {
            1int
        } else {
            0
        }),
{
    lemma_selector_sum(group, z, OPCODE_COUNT as int);
    lemma_group_count(group, z, op, OPCODE_COUNT as int);
}

/// What an equation of a group says of a row: nothing where the selected opcode does not
/// belong to the group.
pub(crate) proof fn lemma_group_row(
    group: OpcodeGroup,
    label: &'static str,
    terms: Seq<Term>,
    z: Seq<u64>,
    h: spec_fn([u64; 4], [u64; 8]) -> [u64; 4],
    op: Opcode,
)
    requires
        selects_only(z, op),
    ensures
        product(label, group.selectors(), terms, seq![]).holds(z, h) <==> (group.has(op)
            ==> crate::field::vanishes(value_sum(terms, z, terms.len() as int))),
{
    let x = value_sum(terms, z, terms.len() as int);
    lemma_group_sum(group, z, op);
    lemma_product_holds(label, group.selectors(), terms, seq![], z, h);
    assert(value_sum(Seq::<Term>::empty(), z, 0) == 0);
    assert(1 * x - 0 == x);
    assert(0 * x - 0 == 0);
}

/// A sum of two values with opposite signs stands for zero exactly where they are equal.
pub(crate) proof fn lemma_equal_values(z: Seq<u64>, left: usize, right: usize)
    ensures
        crate::field::vanishes(value_sum(seq![(left, 1i64), (right, -1i64)], z, 2)) <==> value_of(
            z,
            left,
        ) == value_of(z, right),
{
    lemma_sum2(z, left, 1, right, -1i64);
    lemma_residue_same(at(z, left));
    lemma_residue_same(at(z, right));
    if crate::field::vanishes(value_of(z, left) - value_of(z, right)) {
        lemma_small_zero(value_of(z, left) - value_of(z, right));
    }
}

/// What a gated equation says of a row: nothing where another opcode is selected.
pub(crate) proof fn lemma_opcode_row(
    label: &'static str,
    terms: Seq<Term>,
    z: Seq<u64>,
    h: spec_fn([u64; 4], [u64; 8]) -> [u64; 4],
    op: Opcode,
    selected: Opcode,
)
    requires
        selects_only(z, selected),
    ensures
        gated(label, op.selector(), terms).holds(z, h) <==> (op == selected
            ==> crate::field::vanishes(value_sum(terms, z, terms.len() as int))),
{
    let gate = seq![(op.selector(), 1i64)];
    let x = value_sum(terms, z, terms.len() as int);
    assert(value_of(z, op.selector()) == (if op == selected {
        1u64
    } else {
        0
    }));
    if op == selected {
        lemma_gated_holds(label, op.selector(), terms, z, h);
    } else {
        lemma_product_holds(label, gate, terms, seq![], z, h);
        lemma_sum1(z, op.selector(), 1);
        assert(value_sum(Seq::<Term>::empty(), z, 0) == 0);
        assert(0 * x - 0 == 0);
    }
}

/// What [`equal_row`] says of a row.
pub(crate) proof fn lemma_equal_row(
    label: &'static str,
    z: Seq<u64>,
    h: spec_fn([u64; 4], [u64; 8]) -> [u64; 4],
    op: Opcode,
    selected: Opcode,
    left: usize,
    right: usize,
)
    requires
        selects_only(z, selected),
    ensures
        equal_row(label, op, left, right).holds(z, h) <==> (op == selected ==> value_of(z, left)
            == value_of(z, right)),
{
    lemma_opcode_row(label, seq![(left, 1i64), (right, -1i64)], z, h, op, selected);
    lemma_equal_values(z, left, right);
}

/// What [`constant_row`] says of a row.
pub(crate) proof fn lemma_constant_row(
    label: &'static str,
    z: Seq<u64>,
    h: spec_fn([u64; 4], [u64; 8]) -> [u64; 4],
    op: Opcode,
    selected: Opcode,
    column: usize,
    value: i64,
)
    requires
        selects_only(z, selected),
        value_of(z, COL_ONE) == 1,
        0 <= value < 0x1_0000_0000,
    ensures
        constant_row(label, op, column, value).holds(z, h) <==> (op == selected ==> value_of(
            z,
            column,
        ) == value),
{
    let k = (-value) as i64;
    let terms = seq![(column, 1i64), (COL_ONE, k)];
    lemma_opcode_row(label, terms, z, h, op, selected);
    lemma_constant_value(z, column, value);
}

/// A column less a constant stands for zero exactly where it has the constant value.
pub(crate) proof fn lemma_constant_value(z: Seq<u64>, column: usize, value: i64)
    requires
        value_of(z, COL_ONE) == 1,
        0 <= value < 0x1_0000_0000,
    ensures
        crate::field::vanishes(
            value_sum(seq![(column, 1i64), (COL_ONE, (-value) as i64)], z, 2),
        ) <==> value_of(z, column) == value,
{
    let k = (-value) as i64;
    lemma_sum2(z, column, 1, COL_ONE, k);
    assert(k * value_of(z, COL_ONE) == k) by (nonlinear_arith)
        requires
            value_of(z, COL_ONE) == 1,
    ;
    lemma_residue_same(at(z, column));
    if crate::field::vanishes(value_of(z, column) - value) {
        lemma_small_zero(value_of(z, column) - value);
    }
}

} // verus!
