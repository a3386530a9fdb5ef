//! What a row that meets the relation does to the state of the transaction.

use vstd::prelude::*;

use crate::batch::carries;
use crate::ccs::{nonempty_stack_row, padding_rows, return_rows, stack_rows, transition_rows};
use crate::groups::OpcodeGroup;
use crate::ivc_state::carried;
use crate::layout::{
    bit_of, COL_ABI_METHOD_COUNT_AFTER, COL_ABI_METHOD_COUNT_BEFORE, COL_ABI_METHOD_COUNT_INVERSE,
    COL_ABI_READ_ORDINAL_AFTER, COL_ABI_READ_ORDINAL_BEFORE, COL_ABI_READ_REMAINING_AFTER,
    COL_ABI_READ_REMAINING_BEFORE, COL_BOUNDARY_UTXO, COL_CALL_SP_AFTER, COL_CALL_SP_BEFORE,
    COL_CALL_SP_BEFORE_INVERSE, COL_ENABLED_METHOD_LOG_ORDINAL, COL_LAST_INPUT_HAS_ABI_BEFORE,
    COL_NEXT_UTXO_ID_AFTER, COL_NEXT_UTXO_ID_BEFORE, COL_ONE, COL_OUTPUT_CURSOR_AFTER,
    COL_OUTPUT_CURSOR_BEFORE, COL_OUTPUT_REMAINING, COL_PENDING_CTOR_HANDLE_AFTER,
    COL_PENDING_CTOR_HOLDER_AFTER, COL_PENDING_CTOR_PRESENT_AFTER, COL_SEL_FINISH_TRANSACTION,
    COL_SEL_GET_STORAGE, COL_SEL_NEW_UTXO, COL_SEL_SET_STORAGE, COL_SEL_SKIP_CONSUMED,
    COL_TX_PHASE_AFTER, COL_TX_PHASE_BEFORE,
};
use crate::memory::value_of;
use crate::opcode::Opcode;
use crate::relation::{satisfied, Equation, Term};
use crate::selection::{
    lemma_constant_row, lemma_constant_value, lemma_equal_row, lemma_equal_values, lemma_group_row,
    lemma_group_sum, lemma_opcode_row, selects_only,
};
use crate::soundness::{
    law_bounded_columns_are_in_range, lemma_concat, lemma_concat4, lemma_linear_holds,
    lemma_product_holds, lemma_sections, lemma_small_zero, lemma_sum1, lemma_sum2, lemma_sum3,
    lemma_sum4, valid_row, value_sum,
};
use crate::transaction::{
    append_rows, boundary_flag_rows, boundary_phase_rows, boundary_progress_rows, boundary_rows,
    finish_boundary, get_storage_boundary, nonempty_abi_row, preload_method_boundary,
    read_abi_boundary, set_storage_boundary, skip_consumed_boundary, yield_begin_boundary,
};
use vstd::arithmetic::power2::{lemma2_to64, pow2};

verus! {

/// The parts of the transaction boundaries, each met.
pub open spec fn boundaries_hold(z: Seq<u64>, h: spec_fn([u64; 4], [u64; 8]) -> [u64; 4]) -> bool {
    &&& satisfied(boundary_flag_rows(), z, h)
    &&& satisfied(boundary_phase_rows(), z, h)
    &&& satisfied(boundary_progress_rows(), z, h)
    &&& satisfied(yield_begin_boundary(), z, h)
    &&& satisfied(append_rows(Opcode::RegisterMethod), z, h)
    &&& satisfied(set_storage_boundary(), z, h)
    &&& satisfied(preload_method_boundary(), z, h)
    &&& satisfied(get_storage_boundary(), z, h)
    &&& satisfied(skip_consumed_boundary(), z, h)
    &&& satisfied(finish_boundary(), z, h)
    &&& satisfied(read_abi_boundary(), z, h)
    &&& nonempty_abi_row().holds(z, h)
}

proof fn lemma_concat12(
    p: Seq<Seq<Equation>>,
    z: Seq<u64>,
    h: spec_fn([u64; 4], [u64; 8]) -> [u64; 4],
)
    requires
        p.len() == 12,
    ensures
        satisfied(
            p[0] + p[1] + p[2] + p[3] + p[4] + p[5] + p[6] + p[7] + p[8] + p[9] + p[10] + p[11],
            z,
            h,
        ) <==> (forall|i: int| 0 <= i < 12 ==> satisfied(#[trigger] p[i], z, h)),
{
    let a = p[0] + p[1] + p[2] + p[3];
    let b = a + p[4] + p[5] + p[6];
    let c = b + p[7] + p[8] + p[9];
    lemma_concat(c + p[10], p[11], z, h);
    lemma_concat(c, p[10], z, h);
    lemma_concat4(b, p[7], p[8], p[9], z, h);
    lemma_concat4(a, p[4], p[5], p[6], z, h);
    lemma_concat4(p[0], p[1], p[2], p[3], z, h);
}

/// The transaction boundaries are met exactly where their parts are.
pub(crate) proof fn lemma_boundaries(z: Seq<u64>, h: spec_fn([u64; 4], [u64; 8]) -> [u64; 4])
    ensures
        satisfied(boundary_rows(), z, h) <==> boundaries_hold(z, h),
{
    let last = seq![nonempty_abi_row()];
    let p = seq![
        boundary_flag_rows(),
        boundary_phase_rows(),
        boundary_progress_rows(),
        yield_begin_boundary(),
        append_rows(Opcode::RegisterMethod),
        set_storage_boundary(),
        preload_method_boundary(),
        get_storage_boundary(),
        skip_consumed_boundary(),
        finish_boundary(),
        read_abi_boundary(),
        last,
    ];
    lemma_concat12(p, z, h);
    assert(satisfied(last, z, h) <==> nonempty_abi_row().holds(z, h)) by {
        assert(last[0] == nonempty_abi_row());
        if satisfied(last, z, h) {
            assert(last[0].holds(z, h));
        }
    }
    if boundaries_hold(z, h) {
        assert forall|i: int| 0 <= i < 12 implies satisfied(#[trigger] p[i], z, h) by {}
    } else if satisfied(boundary_rows(), z, h) {
        assert(satisfied(p[0], z, h));
        assert(satisfied(p[1], z, h));
        assert(satisfied(p[2], z, h));
        assert(satisfied(p[3], z, h));
        assert(satisfied(p[4], z, h));
        assert(satisfied(p[5], z, h));
        assert(satisfied(p[6], z, h));
        assert(satisfied(p[7], z, h));
        assert(satisfied(p[8], z, h));
        assert(satisfied(p[9], z, h));
        assert(satisfied(p[10], z, h));
        assert(satisfied(p[11], z, h));
    }
}

/// A `u32` column of a row that meets the relation is in range.
pub(crate) proof fn lemma_word(z: Seq<u64>, h: spec_fn([u64; 4], [u64; 8]) -> [u64; 4], column: usize)
    requires
        valid_row(z, h),
        column < crate::layout::COLUMN_COUNT,
        crate::layout::width_of(column as int) == 32,
    ensures
        value_of(z, column) <= u32::MAX,
{
    lemma2_to64();
    law_bounded_columns_are_in_range(z, h, column as int);
}

/// An eight-bit column of a row that meets the relation is in range.
pub(crate) proof fn lemma_byte(z: Seq<u64>, h: spec_fn([u64; 4], [u64; 8]) -> [u64; 4], column: usize)
    requires
        valid_row(z, h),
        column < crate::layout::COLUMN_COUNT,
        crate::layout::width_of(column as int) == 8,
    ensures
        value_of(z, column) <= 255,
{
    lemma2_to64();
    law_bounded_columns_are_in_range(z, h, column as int);
}

/// The lowest bit of a `u32` column is its parity.
pub(crate) proof fn lemma_parity(z: Seq<u64>, h: spec_fn([u64; 4], [u64; 8]) -> [u64; 4], column: usize)
    requires
        valid_row(z, h),
        column < crate::layout::COLUMN_COUNT,
        crate::layout::width_of(column as int) == 32,
    ensures
        value_of(z, bit_of(column as int, 0) as usize) == value_of(z, column) % 2,
{
    lemma2_to64();
    law_bounded_columns_are_in_range(z, h, column as int);
    let v = value_of(z, column);
    assert(value_of(z, bit_of(column as int, 0) as usize) == crate::range_check::bit(v, 0));
    assert(v as nat / pow2(0) == v) by {
        vstd::arithmetic::div_mod::lemma_div_basics(v as int);
    }
}

/// Padding leaves all carried state as it is.
pub proof fn law_padding_preserves_state(
    z: Seq<u64>,
    h: spec_fn([u64; 4], [u64; 8]) -> [u64; 4],
    i: int,
)
    requires
        valid_row(z, h),
        selects_only(z, Opcode::Padding),
        0 <= i < carried().len(),
    ensures
        carries(carried()[i], z, z),
{
    lemma_sections(z, h);
    assert(padding_rows()[i].holds(z, h));
    lemma_equal_row(
        "padding preserves state",
        z,
        h,
        Opcode::Padding,
        Opcode::Padding,
        carried()[i].previous_step_column,
        carried()[i].next_step_column,
    );
}

/// A push moves the call-stack pointer up by one, a pop down by one, and nothing else
/// moves it.
pub proof fn law_stack_pointer_follows_opcode(
    z: Seq<u64>,
    h: spec_fn([u64; 4], [u64; 8]) -> [u64; 4],
    op: Opcode,
)
    requires
        valid_row(z, h),
        selects_only(z, op),
    ensures
        op.pushes_to_call_stack() ==> value_of(z, COL_CALL_SP_AFTER) == value_of(
            z,
            COL_CALL_SP_BEFORE,
        ) + 1,
        op.pops_from_call_stack() ==> value_of(z, COL_CALL_SP_AFTER) + 1 == value_of(
            z,
            COL_CALL_SP_BEFORE,
        ),
        !op.switches_curr() ==> value_of(z, COL_CALL_SP_AFTER) == value_of(z, COL_CALL_SP_BEFORE),
{
    lemma_sections(z, h);
    lemma_word(z, h, COL_CALL_SP_AFTER);
    lemma_word(z, h, COL_CALL_SP_BEFORE);
    let rows = stack_rows();
    let after = value_of(z, COL_CALL_SP_AFTER);
    let before = value_of(z, COL_CALL_SP_BEFORE);
    if op.pushes_to_call_stack() {
        let terms = seq![
            (COL_CALL_SP_AFTER, 1i64),
            (COL_CALL_SP_BEFORE, -1i64),
            (COL_ONE, -1i64),
        ];
        assert(rows[0].holds(z, h));
        lemma_group_row(OpcodeGroup::Pushes, "sp' = sp+1 on push", terms, z, h, op);
        lemma_sum3(z, COL_CALL_SP_AFTER, 1, COL_CALL_SP_BEFORE, -1i64, COL_ONE, -1i64);
        lemma_small_zero(after - before - 1);
    } else if op.pops_from_call_stack() {
        let terms = seq![(COL_CALL_SP_AFTER, 1i64), (COL_CALL_SP_BEFORE, -1i64), (COL_ONE, 1i64)];
        assert(rows[2].holds(z, h));
        lemma_group_row(OpcodeGroup::Pops, "sp' = sp-1 on pop", terms, z, h, op);
        lemma_sum3(z, COL_CALL_SP_AFTER, 1, COL_CALL_SP_BEFORE, -1i64, COL_ONE, 1);
        lemma_small_zero(after - before + 1);
    } else {
        let terms = seq![(COL_CALL_SP_AFTER, 1i64), (COL_CALL_SP_BEFORE, -1i64)];
        assert(rows[4].holds(z, h));
        lemma_group_row(
            OpcodeGroup::PreservesStack,
            "sp' = sp when the call stack is preserved",
            terms,
            z,
            h,
            op,
        );
        lemma_equal_values(z, COL_CALL_SP_AFTER, COL_CALL_SP_BEFORE);
    }
}

/// Only a coroutine with a frame executes.
pub proof fn law_execution_needs_a_frame(
    z: Seq<u64>,
    h: spec_fn([u64; 4], [u64; 8]) -> [u64; 4],
    op: Opcode,
)
    requires
        valid_row(z, h),
        selects_only(z, op),
        op.is_execution(),
    ensures
        value_of(z, COL_CALL_SP_BEFORE) > 0,
{
    lemma_sections(z, h);
    let a = seq![(COL_CALL_SP_BEFORE, 1i64)];
    let b = seq![(COL_CALL_SP_BEFORE_INVERSE, 1i64)];
    let c = OpcodeGroup::Execution.selectors();
    lemma_product_holds("execution requires nonempty call stack", a, b, c, z, h);
    assert(nonempty_stack_row().holds(z, h));
    lemma_sum1(z, COL_CALL_SP_BEFORE, 1);
    lemma_sum1(z, COL_CALL_SP_BEFORE_INVERSE, 1);
    lemma_group_sum(OpcodeGroup::Execution, z, op);
    if value_of(z, COL_CALL_SP_BEFORE) == 0 {
        let y = value_of(z, COL_CALL_SP_BEFORE_INVERSE);
        assert(0 * y == 0);
        lemma_small_zero(-1);
    }
}

/// A return leaves no pending constructor.
pub proof fn law_return_clears_the_pending_constructor(
    z: Seq<u64>,
    h: spec_fn([u64; 4], [u64; 8]) -> [u64; 4],
)
    requires
        valid_row(z, h),
        selects_only(z, Opcode::Return),
    ensures
        value_of(z, COL_PENDING_CTOR_PRESENT_AFTER) == 0,
        value_of(z, COL_PENDING_CTOR_HOLDER_AFTER) == 0,
        value_of(z, COL_PENDING_CTOR_HANDLE_AFTER) == 0,
{
    lemma_sections(z, h);
    lemma2_to64();
    law_bounded_columns_are_in_range(z, h, COL_PENDING_CTOR_PRESENT_AFTER as int);
    lemma_word(z, h, COL_PENDING_CTOR_HOLDER_AFTER);
    lemma_word(z, h, COL_PENDING_CTOR_HANDLE_AFTER);
    assert(return_rows()[3].holds(z, h));
    let terms = seq![
        (COL_PENDING_CTOR_PRESENT_AFTER, 1i64),
        (COL_PENDING_CTOR_HOLDER_AFTER, 1i64),
        (COL_PENDING_CTOR_HANDLE_AFTER, 1i64),
    ];
    lemma_opcode_row("return constraints", terms, z, h, Opcode::Return, Opcode::Return);
    lemma_sum3(
        z,
        COL_PENDING_CTOR_PRESENT_AFTER,
        1,
        COL_PENDING_CTOR_HOLDER_AFTER,
        1,
        COL_PENDING_CTOR_HANDLE_AFTER,
        1,
    );
    lemma_small_zero(
        value_of(z, COL_PENDING_CTOR_PRESENT_AFTER) + value_of(z, COL_PENDING_CTOR_HOLDER_AFTER)
            + value_of(z, COL_PENDING_CTOR_HANDLE_AFTER),
    );
}

/// What a row of a group of [`boundary_phase_rows`] fixes.
proof fn lemma_group_constant(
    z: Seq<u64>,
    h: spec_fn([u64; 4], [u64; 8]) -> [u64; 4],
    group: OpcodeGroup,
    column: usize,
    value: i64,
    op: Opcode,
)
    requires
        selects_only(z, op),
        group.has(op),
        value_of(z, COL_ONE) == 1,
        0 <= value < 0x1_0000_0000,
        crate::transaction::group_constant_row(group, column, value).holds(z, h),
    ensures
        value_of(z, column) == value,
{
    let terms = seq![(column, 1i64), (COL_ONE, (-value) as i64)];
    lemma_group_row(group, "transaction boundaries", terms, z, h, op);
    lemma_constant_value(z, column, value);
}

/// Execution starts in `Loading` or `Running`, with an ABI for the last input, and ends
/// in `Running`.
pub proof fn law_execution_closes_loading(
    z: Seq<u64>,
    h: spec_fn([u64; 4], [u64; 8]) -> [u64; 4],
    op: Opcode,
)
    requires
        valid_row(z, h),
        selects_only(z, op),
        op.is_execution(),
    ensures
        value_of(z, COL_TX_PHASE_BEFORE) <= 1,
        value_of(z, COL_TX_PHASE_AFTER) == 1,
        value_of(z, COL_LAST_INPUT_HAS_ABI_BEFORE) == 1,
{
    lemma_sections(z, h);
    lemma_boundaries(z, h);
    let rows = boundary_phase_rows();
    assert(rows[0].holds(z, h));
    assert(rows[1].holds(z, h));
    assert(rows[2].holds(z, h));
    let high = bit_of(COL_TX_PHASE_BEFORE as int, 1) as usize;
    lemma_group_constant(z, h, OpcodeGroup::Execution, high, 0, op);
    lemma_group_constant(z, h, OpcodeGroup::Execution, COL_TX_PHASE_AFTER, 1, op);
    lemma_group_constant(z, h, OpcodeGroup::Execution, COL_LAST_INPUT_HAS_ABI_BEFORE, 1, op);
    lemma2_to64();
    law_bounded_columns_are_in_range(z, h, COL_TX_PHASE_BEFORE as int);
    let v = value_of(z, COL_TX_PHASE_BEFORE);
    assert(value_of(z, high) == crate::range_check::bit(v, 1));
}

/// Loading happens in `Loading` and stays there.
pub proof fn law_loading_stays_in_loading(
    z: Seq<u64>,
    h: spec_fn([u64; 4], [u64; 8]) -> [u64; 4],
    op: Opcode,
)
    requires
        valid_row(z, h),
        selects_only(z, op),
        op == Opcode::SetStorage || op == Opcode::PreloadMethod,
    ensures
        value_of(z, COL_TX_PHASE_BEFORE) == 0,
        value_of(z, COL_TX_PHASE_AFTER) == 0,
{
    lemma_sections(z, h);
    lemma_boundaries(z, h);
    let rows = boundary_phase_rows();
    assert(rows[3].holds(z, h));
    assert(rows[5].holds(z, h));
    assert(value_of(z, Opcode::SetStorage.selector()) <= 1);
    assert(value_of(z, Opcode::PreloadMethod.selector()) <= 1);
    assert(value_of(z, Opcode::ReadAbi.selector()) <= 1);
    let set = crate::layout::COL_SEL_SET_STORAGE;
    let preload = crate::layout::COL_SEL_PRELOAD_METHOD;
    let read = crate::layout::COL_SEL_READ_ABI;
    let none = Seq::<Term>::empty();
    let label = "transaction boundaries";
    let a = seq![(set, 1i64), (preload, 1i64)];
    let b = seq![(COL_TX_PHASE_BEFORE, 1i64), (COL_ONE, 0i64)];
    lemma_product_holds(label, a, b, none, z, h);
    lemma_sum2(z, set, 1, preload, 1);
    lemma_sum2(z, COL_TX_PHASE_BEFORE, 1, COL_ONE, 0);
    let x = value_of(z, COL_TX_PHASE_BEFORE) as int;
    assert(value_sum(none, z, 0) == 0);
    assert(1 * x - 0 == x);
    lemma2_to64();
    law_bounded_columns_are_in_range(z, h, COL_TX_PHASE_BEFORE as int);
    lemma_small_zero(x);
    let c = seq![(set, 1i64), (preload, 1i64), (read, 1i64)];
    let d = seq![(COL_TX_PHASE_AFTER, 1i64), (COL_TX_PHASE_BEFORE, -1i64)];
    lemma_product_holds(label, c, d, none, z, h);
    lemma_sum3(z, set, 1, preload, 1, read, 1);
    let y = value_sum(d, z, 2);
    assert(1 * y - 0 == y);
    lemma_equal_values(z, COL_TX_PHASE_AFTER, COL_TX_PHASE_BEFORE);
}

/// The output scan and its end need completed execution: they happen in `Running` with
/// an empty call stack, and only the end leaves that phase, for `Finished`.
pub proof fn law_finalization_needs_completed_execution(
    z: Seq<u64>,
    h: spec_fn([u64; 4], [u64; 8]) -> [u64; 4],
    op: Opcode,
)
    requires
        valid_row(z, h),
        selects_only(z, op),
        op.scans_output() || op == Opcode::FinishTransaction,
    ensures
        value_of(z, COL_TX_PHASE_BEFORE) == 1,
        value_of(z, COL_CALL_SP_BEFORE) == 0,
        value_of(z, COL_TX_PHASE_AFTER) == (if op == Opcode::FinishTransaction {
            2u64
        } else {
            1
        }),
{
    lemma_sections(z, h);
    lemma_boundaries(z, h);
    let rows = boundary_phase_rows();
    let group = OpcodeGroup::Finalization;
    assert(rows[7].holds(z, h));
    assert(rows[8].holds(z, h));
    assert(rows[9].holds(z, h));
    lemma_group_constant(z, h, group, COL_TX_PHASE_BEFORE, 1, op);
    lemma_group_constant(z, h, group, COL_CALL_SP_BEFORE, 0, op);
    let b = seq![(COL_TX_PHASE_AFTER, 1i64), (COL_ONE, -1i64)];
    let c = seq![(COL_SEL_FINISH_TRANSACTION, 1i64)];
    lemma_product_holds("transaction boundaries", group.selectors(), b, c, z, h);
    lemma_group_sum(group, z, op);
    lemma_sum2(z, COL_TX_PHASE_AFTER, 1, COL_ONE, -1i64);
    lemma_sum1(z, COL_SEL_FINISH_TRANSACTION, 1);
    assert(value_of(z, Opcode::FinishTransaction.selector()) <= 1);
    let x = value_of(z, COL_TX_PHASE_AFTER) - 1;
    assert(1 * x == x);
    lemma2_to64();
    law_bounded_columns_are_in_range(z, h, COL_TX_PHASE_AFTER as int);
    lemma_small_zero(x - value_of(z, COL_SEL_FINISH_TRANSACTION));
}

/// ABI enumeration happens in `Running` and stays there.
pub proof fn law_enumeration_stays_in_running(
    z: Seq<u64>,
    h: spec_fn([u64; 4], [u64; 8]) -> [u64; 4],
)
    requires
        valid_row(z, h),
        selects_only(z, Opcode::ReadAbi),
    ensures
        value_of(z, COL_TX_PHASE_BEFORE) == 1,
        value_of(z, COL_TX_PHASE_AFTER) == 1,
{
    lemma_sections(z, h);
    lemma_boundaries(z, h);
    let rows = boundary_phase_rows();
    let op = Opcode::ReadAbi;
    let label = "transaction boundaries";
    assert(rows[4].holds(z, h));
    assert(rows[5].holds(z, h));
    let fixed = seq![(COL_TX_PHASE_BEFORE, 1i64), (COL_ONE, -1i64)];
    lemma_opcode_row(label, fixed, z, h, op, op);
    lemma_constant_value(z, COL_TX_PHASE_BEFORE, 1);
    assert((-1i64) as i64 == -1i64);
    assert(value_of(z, Opcode::SetStorage.selector()) == 0);
    assert(value_of(z, Opcode::PreloadMethod.selector()) == 0);
    assert(value_of(z, Opcode::ReadAbi.selector()) == 1);
    let set = crate::layout::COL_SEL_SET_STORAGE;
    let preload = crate::layout::COL_SEL_PRELOAD_METHOD;
    let read = crate::layout::COL_SEL_READ_ABI;
    let none = Seq::<Term>::empty();
    let c = seq![(set, 1i64), (preload, 1i64), (read, 1i64)];
    let d = seq![(COL_TX_PHASE_AFTER, 1i64), (COL_TX_PHASE_BEFORE, -1i64)];
    lemma_product_holds(label, c, d, none, z, h);
    lemma_sum3(z, set, 1, preload, 1, read, 1);
    let y = value_sum(d, z, 2);
    assert(value_sum(none, z, 0) == 0);
    assert(1 * y - 0 == y);
    lemma_equal_values(z, COL_TX_PHASE_AFTER, COL_TX_PHASE_BEFORE);
}

/// The phase of a transaction never goes back.
pub proof fn law_transaction_phase_is_one_way(
    z: Seq<u64>,
    h: spec_fn([u64; 4], [u64; 8]) -> [u64; 4],
    op: Opcode,
)
    requires
        valid_row(z, h),
        selects_only(z, op),
    ensures
        value_of(z, COL_TX_PHASE_BEFORE) <= value_of(z, COL_TX_PHASE_AFTER),
{
    if op.is_execution() {
        law_execution_closes_loading(z, h, op);
    } else if op == Opcode::SetStorage || op == Opcode::PreloadMethod {
        law_loading_stays_in_loading(z, h, op);
    } else if op == Opcode::ReadAbi {
        law_enumeration_stays_in_running(z, h);
    } else if op == Opcode::Padding {
        law_padding_preserves_state(z, h, 0);
    } else {
        law_finalization_needs_completed_execution(z, h, op);
    }
}

/// A UTXO identity is allocated by a constructor call and by the loading of an input,
/// and by nothing else.
pub proof fn law_allocator_follows_opcode(
    z: Seq<u64>,
    h: spec_fn([u64; 4], [u64; 8]) -> [u64; 4],
    op: Opcode,
)
    requires
        valid_row(z, h),
        selects_only(z, op),
    ensures
        value_of(z, COL_NEXT_UTXO_ID_AFTER) == value_of(z, COL_NEXT_UTXO_ID_BEFORE) + (if op
            == Opcode::NewUtxo || op == Opcode::SetStorage {
            1int
        } else {
            0
        }),
{
    lemma_sections(z, h);
    assert(transition_rows()[2].holds(z, h));
    let terms = seq![
        (COL_NEXT_UTXO_ID_AFTER, 1i64),
        (COL_NEXT_UTXO_ID_BEFORE, -1i64),
        (COL_SEL_NEW_UTXO, -1i64),
        (COL_SEL_SET_STORAGE, -1i64),
    ];
    lemma_linear_holds("next UTXO allocator transition", terms, z, h);
    lemma_sum4(
        z,
        COL_NEXT_UTXO_ID_AFTER,
        1,
        COL_NEXT_UTXO_ID_BEFORE,
        -1i64,
        COL_SEL_NEW_UTXO,
        -1i64,
        COL_SEL_SET_STORAGE,
        -1i64,
    );
    lemma_word(z, h, COL_NEXT_UTXO_ID_AFTER);
    lemma_word(z, h, COL_NEXT_UTXO_ID_BEFORE);
    assert(value_of(z, Opcode::NewUtxo.selector()) <= 1);
    assert(value_of(z, Opcode::SetStorage.selector()) <= 1);
    lemma_small_zero(
        value_of(z, COL_NEXT_UTXO_ID_AFTER) - value_of(z, COL_NEXT_UTXO_ID_BEFORE) - value_of(
            z,
            COL_SEL_NEW_UTXO,
        ) - value_of(z, COL_SEL_SET_STORAGE),
    );
}

/// Where an opcode fixes the difference of two columns.
proof fn lemma_three(
    z: Seq<u64>,
    h: spec_fn([u64; 4], [u64; 8]) -> [u64; 4],
    op: Opcode,
    c0: usize,
    c1: usize,
    k1: i64,
    k2: i64,
)
    requires
        valid_row(z, h),
        selects_only(z, op),
        value_of(z, c0) <= u32::MAX,
        value_of(z, c1) <= u32::MAX,
        -2 <= k1 < 0,
        -1 <= k2 <= 1,
        crate::transaction::three_row(op, c0, 1, c1, k1, k2).holds(z, h),
    ensures
        value_of(z, c0) + k1 * value_of(z, c1) + k2 == 0,
{
    let terms = seq![(c0, 1i64), (c1, k1), (COL_ONE, k2)];
    lemma_opcode_row("transaction boundaries", terms, z, h, op, op);
    lemma_sum3(z, c0, 1, c1, k1, COL_ONE, k2);
    let x = value_of(z, c1) as int;
    assert(k2 * value_of(z, COL_ONE) == k2) by (nonlinear_arith)
        requires
            value_of(z, COL_ONE) == 1,
    ;
    assert(-2 * x <= k1 * x <= 0) by (nonlinear_arith)
        requires
            -2 <= k1 < 0,
            x >= 0,
    ;
    lemma_small_zero(value_of(z, c0) + k1 * value_of(z, c1) + k2);
}

/// ABI enumeration counts down what is left to read and up what was read. Neither
/// counter wraps, and any step but enumeration and padding needs it to be completed.
pub proof fn law_enumeration_counters_do_not_wrap(
    z: Seq<u64>,
    h: spec_fn([u64; 4], [u64; 8]) -> [u64; 4],
    op: Opcode,
)
    requires
        valid_row(z, h),
        selects_only(z, op),
    ensures
        op == Opcode::ReadAbi ==> value_of(z, COL_ABI_READ_REMAINING_BEFORE) == value_of(
            z,
            COL_ABI_READ_REMAINING_AFTER,
        ) + 1 && value_of(z, COL_ABI_READ_ORDINAL_AFTER) == value_of(
            z,
            COL_ABI_READ_ORDINAL_BEFORE,
        ) + 1 && value_of(z, COL_ABI_READ_ORDINAL_AFTER) <= 255,
        op == Opcode::GetStorage ==> value_of(z, COL_ABI_READ_REMAINING_AFTER) == value_of(
            z,
            COL_ABI_METHOD_COUNT_BEFORE,
        ) && value_of(z, COL_ABI_READ_ORDINAL_AFTER) == 0,
        op != Opcode::ReadAbi && op != Opcode::Padding ==> value_of(
            z,
            COL_ABI_READ_REMAINING_BEFORE,
        ) == 0,
{
    lemma_sections(z, h);
    lemma_boundaries(z, h);
    lemma_byte(z, h, COL_ABI_READ_REMAINING_BEFORE);
    lemma_byte(z, h, COL_ABI_READ_REMAINING_AFTER);
    lemma_byte(z, h, COL_ABI_READ_ORDINAL_BEFORE);
    lemma_byte(z, h, COL_ABI_READ_ORDINAL_AFTER);
    if op == Opcode::ReadAbi {
        assert(read_abi_boundary()[0].holds(z, h));
        assert(read_abi_boundary()[1].holds(z, h));
        lemma_three(
            z,
            h,
            op,
            COL_ABI_READ_REMAINING_AFTER,
            COL_ABI_READ_REMAINING_BEFORE,
            -1i64,
            1,
        );
        lemma_three(
            z,
            h,
            op,
            COL_ABI_READ_ORDINAL_AFTER,
            COL_ABI_READ_ORDINAL_BEFORE,
            -1i64,
            -1i64,
        );
    } else if op != Opcode::Padding {
        assert(boundary_progress_rows()[0].holds(z, h));
        let terms = seq![(COL_ABI_READ_REMAINING_BEFORE, 1i64)];
        lemma_group_row(
            OpcodeGroup::EnumerationDone,
            "transaction boundaries",
            terms,
            z,
            h,
            op,
        );
        lemma_sum1(z, COL_ABI_READ_REMAINING_BEFORE, 1);
        lemma_small_zero(value_of(z, COL_ABI_READ_REMAINING_BEFORE) as int);
        if op == Opcode::GetStorage {
            assert(get_storage_boundary()[0].holds(z, h));
            assert(get_storage_boundary()[1].holds(z, h));
            let label = "transaction boundaries";
            lemma_equal_row(
                label,
                z,
                h,
                op,
                op,
                COL_ABI_READ_REMAINING_AFTER,
                COL_ABI_METHOD_COUNT_BEFORE,
            );
            lemma_constant_row(label, z, h, op, op, COL_ABI_READ_ORDINAL_AFTER, 0);
        }
    }
}

/// A registration counts up by one, to at most 255, under the count before as its
/// ordinal; a yield starts again from zero. A UTXO survives exactly where its count is
/// not zero: one with registrations is never skipped, and one without never exported.
pub proof fn law_registration_counts_follow_opcode(
    z: Seq<u64>,
    h: spec_fn([u64; 4], [u64; 8]) -> [u64; 4],
    op: Opcode,
)
    requires
        valid_row(z, h),
        selects_only(z, op),
    ensures
        op.appends_method() ==> value_of(z, COL_ABI_METHOD_COUNT_AFTER) == value_of(
            z,
            COL_ABI_METHOD_COUNT_BEFORE,
        ) + 1 && value_of(z, COL_ABI_METHOD_COUNT_AFTER) <= 255 && value_of(
            z,
            COL_ENABLED_METHOD_LOG_ORDINAL,
        ) == value_of(z, COL_ABI_METHOD_COUNT_BEFORE),
        op == Opcode::YieldBegin ==> value_of(z, COL_ABI_METHOD_COUNT_AFTER) == 0,
        op == Opcode::SkipConsumed ==> value_of(z, COL_ABI_METHOD_COUNT_BEFORE) == 0,
        op == Opcode::GetStorage ==> value_of(z, COL_ABI_METHOD_COUNT_BEFORE) > 0,
{
    lemma_sections(z, h);
    lemma_boundaries(z, h);
    let label = "transaction boundaries";
    lemma_byte(z, h, COL_ABI_METHOD_COUNT_BEFORE);
    lemma_byte(z, h, COL_ABI_METHOD_COUNT_AFTER);
    if op.appends_method() {
        if op == Opcode::RegisterMethod {
            assert(append_rows(op)[1].holds(z, h));
            assert(append_rows(op)[2].holds(z, h));
        } else {
            assert(preload_method_boundary()[7].holds(z, h));
            assert(preload_method_boundary()[8].holds(z, h));
        }
        lemma_three(
            z,
            h,
            op,
            COL_ABI_METHOD_COUNT_AFTER,
            COL_ABI_METHOD_COUNT_BEFORE,
            -1i64,
            -1i64,
        );
        lemma_equal_row(
            label,
            z,
            h,
            op,
            op,
            COL_ENABLED_METHOD_LOG_ORDINAL,
            COL_ABI_METHOD_COUNT_BEFORE,
        );
    } else if op == Opcode::YieldBegin {
        assert(yield_begin_boundary()[1].holds(z, h));
        lemma_constant_row(label, z, h, op, op, COL_ABI_METHOD_COUNT_AFTER, 0);
    } else if op == Opcode::SkipConsumed {
        assert(skip_consumed_boundary()[3].holds(z, h));
        lemma_constant_row(label, z, h, op, op, COL_ABI_METHOD_COUNT_BEFORE, 0);
    } else if op == Opcode::GetStorage {
        let a = seq![(COL_ABI_METHOD_COUNT_BEFORE, 1i64)];
        let b = seq![(COL_ABI_METHOD_COUNT_INVERSE, 1i64)];
        let c = seq![(COL_SEL_GET_STORAGE, 1i64)];
        lemma_product_holds(label, a, b, c, z, h);
        lemma_sum1(z, COL_ABI_METHOD_COUNT_BEFORE, 1);
        lemma_sum1(z, COL_ABI_METHOD_COUNT_INVERSE, 1);
        lemma_sum1(z, COL_SEL_GET_STORAGE, 1);
        assert(value_of(z, Opcode::GetStorage.selector()) == 1);
        if value_of(z, COL_ABI_METHOD_COUNT_BEFORE) == 0 {
            let y = value_of(z, COL_ABI_METHOD_COUNT_INVERSE);
            assert(0 * y == 0);
            lemma_small_zero(-1);
        }
    }
}

/// The output scan visits the UTXO of the cursor, which was allocated, and moves the
/// cursor by one; nothing else moves it. It is over when the cursor reaches the
/// allocator.
pub proof fn law_output_scan_visits_every_utxo(
    z: Seq<u64>,
    h: spec_fn([u64; 4], [u64; 8]) -> [u64; 4],
    op: Opcode,
)
    requires
        valid_row(z, h),
        selects_only(z, op),
    ensures
        value_of(z, COL_OUTPUT_CURSOR_AFTER) == value_of(z, COL_OUTPUT_CURSOR_BEFORE) + (
        if op.scans_output() {
            1int
        } else {
            0
        }),
        op.scans_output() ==> value_of(z, COL_BOUNDARY_UTXO) == 2 * value_of(
            z,
            COL_OUTPUT_CURSOR_BEFORE,
        ) + 1 && value_of(z, COL_OUTPUT_CURSOR_BEFORE) < value_of(z, COL_NEXT_UTXO_ID_BEFORE),
        op == Opcode::FinishTransaction ==> value_of(z, COL_OUTPUT_CURSOR_BEFORE) == value_of(
            z,
            COL_NEXT_UTXO_ID_BEFORE,
        ),
{
    lemma_sections(z, h);
    lemma_boundaries(z, h);
    let label = "transaction boundaries";
    lemma_word(z, h, COL_OUTPUT_CURSOR_BEFORE);
    lemma_word(z, h, COL_OUTPUT_CURSOR_AFTER);
    lemma_word(z, h, COL_BOUNDARY_UTXO);
    lemma_word(z, h, COL_NEXT_UTXO_ID_BEFORE);
    lemma_word(z, h, COL_OUTPUT_REMAINING);
    assert(boundary_flag_rows()[4].holds(z, h));
    let moved = seq![
        (COL_OUTPUT_CURSOR_AFTER, 1i64),
        (COL_OUTPUT_CURSOR_BEFORE, -1i64),
        (COL_SEL_GET_STORAGE, -1i64),
        (COL_SEL_SKIP_CONSUMED, -1i64),
    ];
    lemma_linear_holds(label, moved, z, h);
    lemma_sum4(
        z,
        COL_OUTPUT_CURSOR_AFTER,
        1,
        COL_OUTPUT_CURSOR_BEFORE,
        -1i64,
        COL_SEL_GET_STORAGE,
        -1i64,
        COL_SEL_SKIP_CONSUMED,
        -1i64,
    );
    assert(value_of(z, Opcode::GetStorage.selector()) <= 1);
    assert(value_of(z, Opcode::SkipConsumed.selector()) <= 1);
    lemma_small_zero(
        value_of(z, COL_OUTPUT_CURSOR_AFTER) - value_of(z, COL_OUTPUT_CURSOR_BEFORE) - value_of(
            z,
            COL_SEL_GET_STORAGE,
        ) - value_of(z, COL_SEL_SKIP_CONSUMED),
    );
    if op.scans_output() {
        let scan = crate::transaction::scan_rows(op);
        if op == Opcode::GetStorage {
            assert(get_storage_boundary()[2].holds(z, h));
            assert(get_storage_boundary()[3].holds(z, h));
            assert(get_storage_boundary()[2] == scan[0]);
            assert(get_storage_boundary()[3] == scan[1]);
        } else {
            assert(skip_consumed_boundary()[0].holds(z, h));
            assert(skip_consumed_boundary()[1].holds(z, h));
            assert(skip_consumed_boundary()[0] == scan[0]);
            assert(skip_consumed_boundary()[1] == scan[1]);
        }
        lemma_three(z, h, op, COL_BOUNDARY_UTXO, COL_OUTPUT_CURSOR_BEFORE, -2i64, -1i64);
        let terms = seq![
            (COL_OUTPUT_REMAINING, 1i64),
            (COL_NEXT_UTXO_ID_BEFORE, -1i64),
            (COL_OUTPUT_CURSOR_BEFORE, 1i64),
            (COL_ONE, 1i64),
        ];
        lemma_opcode_row(label, terms, z, h, op, op);
        lemma_sum4(
            z,
            COL_OUTPUT_REMAINING,
            1,
            COL_NEXT_UTXO_ID_BEFORE,
            -1i64,
            COL_OUTPUT_CURSOR_BEFORE,
            1,
            COL_ONE,
            1,
        );
        lemma_small_zero(
            value_of(z, COL_OUTPUT_REMAINING) - value_of(z, COL_NEXT_UTXO_ID_BEFORE) + value_of(
                z,
                COL_OUTPUT_CURSOR_BEFORE,
            ) + 1,
        );
    }
    if op == Opcode::FinishTransaction {
        assert(finish_boundary()[0].holds(z, h));
        lemma_equal_row(
            label,
            z,
            h,
            op,
            op,
            COL_OUTPUT_CURSOR_BEFORE,
            COL_NEXT_UTXO_ID_BEFORE,
        );
    }
}

} // verus!
