//! Every constraint speaks of columns of a row.

use vstd::prelude::*;

use crate::ccs::{
    address_rows, call_method_rows, enter_constructor_rows, enter_method_rows, event_owner_row,
    expected_frame_row, frame_row, method_table_row, new_utxo_rows, non_execution_rows,
    nonempty_stack_row, one_hot_row, padding_rows, register_method_rows, relation_rows,
    return_rows, stack_rows, transition_rows, yield_begin_rows,
};
use crate::commitment::{
    block_row, block_rows, canonical_rows, canonical_rows_of, commitment_rows, compression_rows,
    kind, selection_row, selection_rows,
};
use crate::events::lemma_templates_well_indexed;
use crate::groups::OpcodeGroup;
use crate::layout::{
    lemma_bit_of, width_of, COLUMN_COUNT, ROW_WIDTH, COL_CALL_TARGET, COL_CURR_AFTER,
    COL_CURR_BEFORE, COL_CURR_PHASE_BEFORE, COL_TX_PHASE_BEFORE,
};
use crate::opcode::opcodes;
use crate::range_check::{column_rows, range_rows, recomposition};
use crate::relation::{Equation, Term};
use crate::transaction::{
    append_rows, boundary_flag_rows, boundary_phase_rows, boundary_progress_rows, boundary_rows,
    finish_boundary, get_storage_boundary, preload_method_boundary, read_abi_boundary,
    set_storage_boundary, skip_consumed_boundary, yield_begin_boundary,
};

verus! {

/// Whether terms speak of columns of a row.
pub open spec fn terms_bounded(terms: Seq<Term>) -> bool {
    forall|k: int| 0 <= k < terms.len() ==> (#[trigger] terms[k]).0 < ROW_WIDTH
}

/// Whether an equation speaks of columns of a row.
pub open spec fn bounded(equation: Equation) -> bool {
    match equation {
        Equation::Product { a, b, c, .. } => terms_bounded(a) && terms_bounded(b) && terms_bounded(
            c,
        ),
        Equation::Compression { gadget, .. } => {
            &&& forall|i: int| 0 <= i < 4 ==> #[trigger] gadget.previous[i] < ROW_WIDTH
            &&& forall|i: int| 0 <= i < 8 ==> #[trigger] gadget.block[i] < ROW_WIDTH
            &&& forall|i: int| 0 <= i < 4 ==> #[trigger] gadget.output[i] < ROW_WIDTH
        },
    }
}

/// Whether equations speak of columns of a row.
pub open spec fn all_bounded(rows: Seq<Equation>) -> bool {
    forall|i: int| 0 <= i < rows.len() ==> bounded(#[trigger] rows[i])
}

proof fn lemma_selectors_of(group: OpcodeGroup, n: int)
    requires
        n <= opcodes().len(),
    ensures
        terms_bounded(group.selectors_of(n)),
    decreases n,
{
    if n > 0 {
        lemma_selectors_of(group, n - 1);
    }
}

proof fn lemma_selectors()
    ensures
        forall|group: OpcodeGroup| terms_bounded(#[trigger] group.selectors()),
{
    assert forall|group: OpcodeGroup| terms_bounded(#[trigger] group.selectors()) by {
        lemma_selectors_of(group, opcodes().len() as int);
    }
}

proof fn lemma_bits()
    ensures
        crate::layout::bit_of(COL_CURR_BEFORE as int, 0) < ROW_WIDTH,
        crate::layout::bit_of(COL_CURR_AFTER as int, 0) < ROW_WIDTH,
        crate::layout::bit_of(COL_CALL_TARGET as int, 0) < ROW_WIDTH,
        crate::layout::bit_of(COL_CURR_PHASE_BEFORE as int, 0) < ROW_WIDTH,
        crate::layout::bit_of(COL_CURR_PHASE_BEFORE as int, 1) < ROW_WIDTH,
        crate::layout::bit_of(COL_TX_PHASE_BEFORE as int, 1) < ROW_WIDTH,
{
    lemma_bit_of(COL_CURR_BEFORE as int, 0);
}

proof fn lemma_state_rows()
    ensures
        bounded(one_hot_row()),
        bounded(nonempty_stack_row()),
        all_bounded(padding_rows()),
        all_bounded(non_execution_rows()),
        all_bounded(transition_rows()),
        all_bounded(stack_rows()),
{
    lemma_selectors();
}

proof fn lemma_address_rows()
    ensures
        all_bounded(address_rows()),
{
    assert forall|i: int| 0 <= i < 8 implies bounded(#[trigger] method_table_row(i)) by {}
    assert forall|i: int| 0 <= i < 8 implies bounded(#[trigger] frame_row(i)) by {}
    assert forall|i: int| 0 <= i < 8 implies bounded(#[trigger] expected_frame_row(i)) by {}
    assert forall|i: int| 0 <= i < 8 implies bounded(#[trigger] event_owner_row(i)) by {}
}

proof fn lemma_opcode_rows()
    ensures
        all_bounded(new_utxo_rows()),
        all_bounded(enter_constructor_rows()),
        all_bounded(yield_begin_rows()),
        all_bounded(register_method_rows()),
        all_bounded(return_rows()),
        all_bounded(call_method_rows()),
        all_bounded(enter_method_rows()),
{
    lemma_bits();
}

proof fn lemma_boundary_rows()
    ensures
        all_bounded(boundary_rows()),
{
    lemma_selectors();
    lemma_bits();
    assert(all_bounded(boundary_flag_rows()));
    assert(all_bounded(boundary_phase_rows()));
    assert(all_bounded(boundary_progress_rows()));
    assert(all_bounded(yield_begin_boundary()));
    assert(all_bounded(append_rows(crate::opcode::Opcode::RegisterMethod)));
    assert(all_bounded(set_storage_boundary()));
    assert(all_bounded(preload_method_boundary()));
    assert(all_bounded(get_storage_boundary()));
    assert(all_bounded(skip_consumed_boundary()));
    assert(all_bounded(finish_boundary()));
    assert(all_bounded(read_abi_boundary()));
}

proof fn lemma_canonical_rows(n: int)
    requires
        n <= 16,
    ensures
        all_bounded(canonical_rows(n)),
    decreases n,
{
    if n > 0 {
        lemma_canonical_rows(n - 1);
        assert(all_bounded(canonical_rows_of(((n - 1) / 4) as usize, (n - 1) % 4)));
    }
}

proof fn lemma_commitment_rows()
    ensures
        all_bounded(commitment_rows()),
{
    lemma_canonical_rows(16);
    assert forall|k: int| 0 <= k < 336 implies bounded(#[trigger] block_rows(336)[k]) by {
        let op = opcodes()[k / 24];
        let block = (k % 24) / 8;
        let lane = k % 8;
        if kind(op) is Some && block < kind(op)->0.template().len() {
            lemma_templates_well_indexed(kind(op)->0, block, lane);
        }
        assert(bounded(block_row(op, block, lane)));
    }
    assert(all_bounded(compression_rows()));
    lemma_selectors();
    assert forall|k: int| 0 <= k < 16 implies bounded(#[trigger] selection_rows(16)[k]) by {
        assert(bounded(selection_row(k / 4, k % 4)));
    }
}

proof fn lemma_column_rows(column: int)
    requires
        0 <= column < COLUMN_COUNT,
    ensures
        all_bounded(column_rows(column)),
{
    if width_of(column) > 1 {
        assert forall|j: int| 0 <= j < width_of(column) implies #[trigger] crate::layout::bit_of(
            column,
            j,
        ) < ROW_WIDTH by {
            lemma_bit_of(column, j);
        }
        let terms = recomposition(column, width_of(column) as int + 1);
        assert(terms_bounded(terms));
    }
}

proof fn lemma_range_rows(n: int)
    requires
        n <= COLUMN_COUNT,
    ensures
        all_bounded(range_rows(n)),
    decreases n,
{
    if n > 0 {
        lemma_range_rows(n - 1);
        lemma_column_rows(n - 1);
    }
}

/// The relation of a row speaks of the columns of that row alone.
pub proof fn lemma_relation_bounded()
    ensures
        all_bounded(relation_rows()),
{
    lemma_state_rows();
    lemma_address_rows();
    lemma_opcode_rows();
    lemma_boundary_rows();
    lemma_commitment_rows();
    lemma_range_rows(COLUMN_COUNT as int);
}

} // verus!
