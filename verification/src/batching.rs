//! A batch meets its relation exactly where its slots meet theirs.

use vstd::prelude::*;

use crate::batch::{
    batch_equation, batch_rows, carries, constraint_count, lemma_carried_bounded,
    lemma_slot_column, link_row, mapped, mapped_equation, mapped_terms, single_constraints,
    slot_column, valid_batch_size,
};
use crate::bounds::{bounded, lemma_relation_bounded, terms_bounded};
use crate::ccs::relation_rows;
use crate::ivc_state::{carried, LINK_COUNT};
use crate::layout::{COL_ONE, ROW_WIDTH};
use crate::memory::value_of;
use crate::relation::{at, partial_sum, satisfied, Equation, Term};
use crate::soundness::{
    lemma_linear_holds, lemma_residue_same, lemma_small_zero, lemma_sum2, value_sum,
};
use vstd::arithmetic::div_mod::{
    lemma_fundamental_div_mod, lemma_fundamental_div_mod_converse, lemma_mod_bound,
};
use vstd::arithmetic::mul::{lemma_mul_inequality, lemma_mul_is_distributive_add_other_way};

verus! {

/// The row in a slot of a batch, with the constant that serves every slot.
pub open spec fn slot_row(z: Seq<u64>, size: int, slot: int) -> Seq<u64> {
    Seq::new(
        ROW_WIDTH as nat,
        |c: int|
            if c == COL_ONE {
                z[COL_ONE as int]
            } else {
                z[slot_column(size, slot, c)]
            },
    )
}

/// A column of a slot has the same value in the batch and in the row of the slot.
pub proof fn lemma_mapped_at(z: Seq<u64>, size: int, slot: int, column: usize)
    requires
        0 <= slot < size,
        z.len() == ROW_WIDTH * size,
        ROW_WIDTH * size <= usize::MAX,
        column < ROW_WIDTH,
    ensures
        at(z, mapped(size, slot, column)) == at(slot_row(z, size, slot), column),
{
    lemma_slot_column(size, slot, column as int);
    if column == COL_ONE {
        lemma_slot_column(size, slot, 0);
    }
}

proof fn lemma_mapped_sum(z: Seq<u64>, size: int, slot: int, terms: Seq<Term>, n: int)
    requires
        0 <= slot < size,
        z.len() == ROW_WIDTH * size,
        ROW_WIDTH * size <= usize::MAX,
        terms_bounded(terms),
        0 <= n <= terms.len(),
    ensures
        partial_sum(mapped_terms(size, slot, terms), z, n) == partial_sum(
            terms,
            slot_row(z, size, slot),
            n,
        ),
    decreases n,
{
    if n > 0 {
        lemma_mapped_sum(z, size, slot, terms, n - 1);
        assert(terms[n - 1].0 < ROW_WIDTH);
        lemma_mapped_at(z, size, slot, terms[n - 1].0);
        assert(mapped_terms(size, slot, terms)[n - 1] == (
            mapped(size, slot, terms[n - 1].0),
            terms[n - 1].1,
        ));
    }
}

/// An equation of a slot holds of the batch exactly where it holds of the slot's row.
pub proof fn lemma_mapped_holds(
    z: Seq<u64>,
    size: int,
    slot: int,
    equation: Equation,
    h: spec_fn([u64; 4], [u64; 8]) -> [u64; 4],
)
    requires
        0 <= slot < size,
        z.len() == ROW_WIDTH * size,
        ROW_WIDTH * size <= usize::MAX,
        bounded(equation),
    ensures
        mapped_equation(size, slot, equation).holds(z, h) == equation.holds(
            slot_row(z, size, slot),
            h,
        ),
{
    reveal(Equation::holds);
    let row = slot_row(z, size, slot);
    match equation {
        Equation::Product { a, b, c, .. } => {
            lemma_mapped_sum(z, size, slot, a, a.len() as int);
            lemma_mapped_sum(z, size, slot, b, b.len() as int);
            lemma_mapped_sum(z, size, slot, c, c.len() as int);
        },
        Equation::Compression { gadget, .. } => {
            assert forall|i: int| 0 <= i < 4 implies at(
                z,
                mapped(size, slot, #[trigger] gadget.previous[i]),
            ) == at(row, gadget.previous[i]) by {
                lemma_mapped_at(z, size, slot, gadget.previous[i]);
            }
            assert forall|i: int| 0 <= i < 8 implies at(
                z,
                mapped(size, slot, #[trigger] gadget.block[i]),
            ) == at(row, gadget.block[i]) by {
                lemma_mapped_at(z, size, slot, gadget.block[i]);
            }
            assert forall|i: int| 0 <= i < 4 implies at(
                z,
                mapped(size, slot, #[trigger] gadget.output[i]),
            ) == at(row, gadget.output[i]) by {
                lemma_mapped_at(z, size, slot, gadget.output[i]);
            }
        },
    }
}

/// A link of a batch holds exactly where its two slots agree on the carried column.
pub proof fn lemma_link_holds(
    z: Seq<u64>,
    size: int,
    slot: int,
    i: int,
    h: spec_fn([u64; 4], [u64; 8]) -> [u64; 4],
)
    requires
        0 <= slot,
        slot + 1 < size,
        z.len() == ROW_WIDTH * size,
        ROW_WIDTH * size <= usize::MAX,
        value_of(z, COL_ONE) == 1,
        0 <= i < carried().len(),
    ensures
        link_row(size, slot, carried()[i]).holds(z, h) <==> carries(
            carried()[i],
            slot_row(z, size, slot),
            slot_row(z, size, slot + 1),
        ),
{
    let carry = carried()[i];
    lemma_carried_bounded(i);
    let a = slot_column(size, slot, carry.previous_step_column as int) as usize;
    let b = slot_column(size, slot + 1, carry.next_step_column as int) as usize;
    let terms = seq![(a, 1i64), (b, -1i64)];
    lemma_linear_holds("within-batch continuity", terms, z, h);
    lemma_mapped_at(z, size, slot, carry.previous_step_column);
    lemma_mapped_at(z, size, slot + 1, carry.next_step_column);
    lemma_sum2(z, a, 1, b, -1i64);
    assert(value_sum(terms, z, 2) == value_of(z, a) - value_of(z, b));
    lemma_residue_same(at(z, a));
    lemma_residue_same(at(z, b));
    if link_row(size, slot, carry).holds(z, h) {
        lemma_small_zero(value_of(z, a) - value_of(z, b));
    }
}

/// Whether every slot of a batch meets the relation and hands its state to the next.
pub open spec fn slots_satisfied(
    z: Seq<u64>,
    size: int,
    h: spec_fn([u64; 4], [u64; 8]) -> [u64; 4],
) -> bool {
    &&& forall|slot: int|
        0 <= slot < size ==> satisfied(relation_rows(), #[trigger] slot_row(z, size, slot), h)
    &&& forall|slot: int, i: int|
        0 <= slot && slot + 1 < size && 0 <= i < carried().len() ==> #[trigger] carries(
            carried()[i],
            slot_row(z, size, slot),
            slot_row(z, size, slot + 1),
        )
}

proof fn lemma_equation_of_slot(size: int, slot: int, i: int)
    requires
        0 <= slot < size,
        0 <= i < single_constraints(),
    ensures
        0 <= slot * single_constraints() + i < size * single_constraints(),
        size * single_constraints() <= constraint_count(size),
        batch_equation(size, slot * single_constraints() + i) == mapped_equation(
            size,
            slot,
            relation_rows()[i],
        ),
{
    let n = single_constraints();
    lemma_mul_inequality(slot + 1, size, n);
    lemma_mul_is_distributive_add_other_way(n, slot, 1);
    assert(0 <= slot * n) by (nonlinear_arith)
        requires
            0 <= slot,
            0 <= n,
    ;
    lemma_fundamental_div_mod_converse(slot * n + i, n, slot, i);
}

/// A batch meets its relation exactly where every slot meets the relation of a row
/// and hands its carried state to the next slot.
pub proof fn law_batch_is_its_slots(
    z: Seq<u64>,
    size: usize,
    h: spec_fn([u64; 4], [u64; 8]) -> [u64; 4],
)
    requires
        valid_batch_size(size),
        z.len() == ROW_WIDTH * size,
        value_of(z, COL_ONE) == 1,
    ensures
        satisfied(batch_rows(size as int), z, h) <==> slots_satisfied(z, size as int, h),
{
    let n = single_constraints();
    let s = size as int;
    let all = batch_rows(s);
    lemma_relation_bounded();
    assert(0 <= s * n) by (nonlinear_arith)
        requires
            0 <= s,
            0 <= n,
    ;
    if satisfied(all, z, h) {
        assert forall|slot: int| 0 <= slot < s implies satisfied(
            relation_rows(),
            #[trigger] slot_row(z, s, slot),
            h,
        ) by {
            assert forall|i: int| 0 <= i < relation_rows().len() implies (
            #[trigger] relation_rows()[i]).holds(slot_row(z, s, slot), h) by {
                lemma_equation_of_slot(s, slot, i);
                lemma_mapped_holds(z, s, slot, relation_rows()[i], h);
                assert(all[slot * n + i].holds(z, h));
            }
        }
        assert forall|slot: int, i: int|
            0 <= slot && slot + 1 < s && 0 <= i < carried().len() implies #[trigger] carries(
            carried()[i],
            slot_row(z, s, slot),
            slot_row(z, s, slot + 1),
        ) by {
            let k = s * n + slot * LINK_COUNT + i;
            assert(all[k] == link_row(s, slot, carried()[i]));
            assert(all[k].holds(z, h));
            lemma_link_holds(z, s, slot, i, h);
        }
    }
    if slots_satisfied(z, s, h) {
        assert forall|k: int| 0 <= k < all.len() implies (#[trigger] all[k]).holds(z, h) by {
            if k < s * n {
                assert(n > 0) by (nonlinear_arith)
                    requires
                        0 <= k < s * n,
                        s > 0,
                ;
                let slot = k / n;
                let i = k % n;
                lemma_fundamental_div_mod(k, n);
                lemma_mod_bound(k, n);
                assert(0 <= slot < s) by (nonlinear_arith)
                    requires
                        k == n * slot + i,
                        0 <= i < n,
                        0 <= k < s * n,
                ;
                assert(satisfied(relation_rows(), slot_row(z, s, slot), h));
                assert(relation_rows()[i].holds(slot_row(z, s, slot), h));
                lemma_mapped_holds(z, s, slot, relation_rows()[i], h);
            } else {
                let slot = (k - s * n) / (LINK_COUNT as int);
                let i = (k - s * n) % (LINK_COUNT as int);
                assert(carries(carried()[i], slot_row(z, s, slot), slot_row(z, s, slot + 1)));
                lemma_link_holds(z, s, slot, i, h);
            }
        }
    }
}

} // verus!
