//! The size of the relation.

use vstd::prelude::*;

use crate::batch::{constraint_count, single_constraints, valid_batch_size};
use crate::ccs::{
    address_rows, call_method_rows, enter_constructor_rows, enter_method_rows, new_utxo_rows,
    non_execution_rows, padding_rows, register_method_rows, relation_rows, return_rows,
    stack_rows, transition_rows, yield_begin_rows,
};
use crate::commitment::{canonical_rows, commitment_rows};
use crate::layout::{width_of, COLUMN_COUNT, ROW_WIDTH};
use crate::range_check::{column_rows, range_rows};
use crate::transaction::boundary_rows;

verus! {

/// A column is bounded by at most one row more than it has bits.
proof fn lemma_range_len(n: int)
    requires
        0 <= n <= COLUMN_COUNT,
    ensures
        range_rows(n).len() <= 33 * n,
    decreases n,
{
    if n > 0 {
        lemma_range_len(n - 1);
        assert(width_of(n - 1) <= 32);
        assert(column_rows(n - 1).len() <= 33);
    }
}

proof fn lemma_canonical_len(n: int)
    requires
        0 <= n,
    ensures
        canonical_rows(n).len() == 4 * n,
    decreases n,
{
    if n > 0 {
        lemma_canonical_len(n - 1);
    }
}

proof fn lemma_boundary_len()
    ensures
        boundary_rows().len() <= 100,
{
}

proof fn lemma_commitment_len()
    ensures
        commitment_rows().len() <= 500,
{
    lemma_canonical_len(16);
}

/// The relation has fewer than ten thousand equations.
pub proof fn law_relation_is_small()
    ensures
        relation_rows().len() < 10_000,
{
    lemma_range_len(COLUMN_COUNT as int);
    lemma_boundary_len();
    lemma_commitment_len();
    assert(padding_rows().len() == 13);
    assert(non_execution_rows().len() == 4);
    assert(transition_rows().len() == 7);
    assert(address_rows().len() == 32);
    assert(stack_rows().len() == 6);
    assert(new_utxo_rows().len() == 9);
    assert(enter_constructor_rows().len() == 7);
    assert(yield_begin_rows().len() == 8);
    assert(register_method_rows().len() == 10);
    assert(return_rows().len() == 7);
    assert(call_method_rows().len() == 12);
    assert(enter_method_rows().len() == 6);
}

/// Batches of up to one hundred thousand slots can be built on every machine.
pub proof fn law_small_batches_are_valid(size: usize)
    requires
        0 < size <= 100_000,
    ensures
        valid_batch_size(size),
{
    law_relation_is_small();
    let n = single_constraints();
    let s = size as int;
    assert(0 <= s * n <= 1_000_000_000) by (nonlinear_arith)
        requires
            0 < s <= 100_000,
            0 <= n < 10_000,
    ;
    assert(ROW_WIDTH * s <= 352_000_000);
    assert(constraint_count(s) <= 1_010_000_000);
}

} // verus!
