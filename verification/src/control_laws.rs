//! What a row that meets the relation does to control, coroutines and their methods.

use vstd::prelude::*;

use crate::ccs::{
    call_method_rows, enter_constructor_rows, enter_method_rows, kind_row, new_utxo_rows,
    non_execution_rows, phase_after_row, phase_before_row, preserve_pending_rows,
    register_method_rows, return_rows, transition_rows, yield_begin_rows,
};
use crate::groups::OpcodeGroup;
use crate::ivc_state::{CoroutineKind, CurrPhase};
use crate::layout::{
    bit_of, COL_ABI_GENERATION_ADDR, COL_ABI_GENERATION_AFTER, COL_ABI_GENERATION_BEFORE,
    COL_CALL_TARGET, COL_CURR_AFTER, COL_CURR_BEFORE, COL_CURR_PHASE_AFTER, COL_CURR_PHASE_BEFORE,
    COL_ENABLED_METHOD_LOG_ADDR, COL_ENABLED_METHOD_LOG_GENERATION,
    COL_ENABLED_METHOD_LOG_LEN_AFTER, COL_ENABLED_METHOD_LOG_LEN_BEFORE,
    COL_ENABLED_METHOD_LOG_UTXO, COL_NEXT_UTXO_ID_BEFORE, COL_ONE, COL_PENDING_CTOR_HANDLE_AFTER,
    COL_PENDING_CTOR_HANDLE_BEFORE, COL_PENDING_CTOR_HOLDER_AFTER, COL_PENDING_CTOR_HOLDER_BEFORE,
    COL_PENDING_CTOR_PRESENT_AFTER, COL_PENDING_CTOR_PRESENT_BEFORE,
    COL_RESOURCE_RESOLVER_ADDR_CID, COL_RESOURCE_RESOLVER_ADDR_HANDLE,
    COL_RESOURCE_RESOLVER_VALUE, COL_SEL_PRELOAD_METHOD, COL_SEL_REGISTER_METHOD,
};
use crate::legality::{kind_needed, phase_needed};
use crate::memory::value_of;
use crate::opcode::Opcode;
use crate::relation::{satisfied, Equation};
use crate::selection::{
    lemma_constant_row, lemma_equal_row, lemma_equal_values, lemma_group_row, lemma_group_sum,
    lemma_opcode_row, selects_only,
};
use crate::soundness::{
    law_bounded_columns_are_in_range, lemma_linear_holds, lemma_product_holds, lemma_sections,
    lemma_small_zero, lemma_sum1, lemma_sum2, lemma_sum3, lemma_sum4, valid_row, value_sum,
};
use crate::step_laws::{law_padding_preserves_state, lemma_parity, lemma_word};
use vstd::arithmetic::power2::lemma2_to64;

verus! {

/// A call and a return hand control to the target, and nothing else hands it over.
pub proof fn law_control_follows_opcode(
    z: Seq<u64>,
    h: spec_fn([u64; 4], [u64; 8]) -> [u64; 4],
    op: Opcode,
)
    requires
        valid_row(z, h),
        selects_only(z, op),
    ensures
        value_of(z, COL_CURR_AFTER) == value_of(
            z,
            if op.switches_curr() {
                COL_CALL_TARGET
            } else {
                COL_CURR_BEFORE
            },
        ),
{
    lemma_sections(z, h);
    assert(transition_rows()[0].holds(z, h));
    let moved = seq![(COL_CALL_TARGET, 1i64), (COL_CURR_BEFORE, -1i64)];
    let change = seq![(COL_CURR_AFTER, 1i64), (COL_CURR_BEFORE, -1i64)];
    lemma_product_holds(
        "current coroutine transition",
        OpcodeGroup::SwitchesCurr.selectors(),
        moved,
        change,
        z,
        h,
    );
    lemma_group_sum(OpcodeGroup::SwitchesCurr, z, op);
    lemma_sum2(z, COL_CALL_TARGET, 1, COL_CURR_BEFORE, -1i64);
    lemma_sum2(z, COL_CURR_AFTER, 1, COL_CURR_BEFORE, -1i64);
    let x = value_sum(moved, z, 2);
    assert(1 * x == x);
    assert(0 * x == 0);
    lemma_word(z, h, COL_CURR_AFTER);
    lemma_word(z, h, COL_CURR_BEFORE);
    lemma_word(z, h, COL_CALL_TARGET);
    if op.switches_curr() {
        lemma_small_zero(value_of(z, COL_CALL_TARGET) - value_of(z, COL_CURR_AFTER));
    } else {
        lemma_small_zero(value_of(z, COL_CURR_BEFORE) - value_of(z, COL_CURR_AFTER));
    }
}

/// What the rows on the kind and the phases of the running coroutine fix.
proof fn lemma_turn(
    z: Seq<u64>,
    h: spec_fn([u64; 4], [u64; 8]) -> [u64; 4],
    label: &'static str,
    op: Opcode,
    column: usize,
    kind: CoroutineKind,
    before: CurrPhase,
    after: CurrPhase,
)
    requires
        valid_row(z, h),
        selects_only(z, op),
        column < crate::layout::COLUMN_COUNT,
        crate::layout::width_of(column as int) == 32,
        kind_row(label, op, column, kind).holds(z, h),
        phase_before_row(label, op, before).holds(z, h),
        phase_after_row(label, op, after).holds(z, h),
    ensures
        value_of(z, column) % 2 == kind.tag(),
        value_of(z, COL_CURR_PHASE_BEFORE) == before.value(),
        value_of(z, COL_CURR_PHASE_AFTER) == after.value(),
{
    let bit = bit_of(column as int, 0) as usize;
    lemma_constant_row(label, z, h, op, op, bit, kind.tag() as i64);
    lemma_parity(z, h, column);
    lemma_constant_row(label, z, h, op, op, COL_CURR_PHASE_BEFORE, before.value() as i64);
    lemma_constant_row(label, z, h, op, op, COL_CURR_PHASE_AFTER, after.value() as i64);
}

/// An opcode finds the running coroutine in the phase and of the kind that it needs, and
/// leaves the phase that [`Opcode::phase_after`] gives.
pub proof fn law_coroutine_phase_follows_opcode(
    z: Seq<u64>,
    h: spec_fn([u64; 4], [u64; 8]) -> [u64; 4],
    op: Opcode,
    before: CurrPhase,
)
    requires
        valid_row(z, h),
        selects_only(z, op),
        value_of(z, COL_CURR_PHASE_BEFORE) == before.value(),
    ensures
        phase_needed(op) matches Some(phase) ==> before == phase,
        kind_needed(op) matches Some(kind) ==> value_of(z, COL_CURR_BEFORE) % 2 == kind.tag(),
        op == Opcode::Return ==> before == CurrPhase::Executing || before == CurrPhase::Yield,
        op == Opcode::Return ==> value_of(z, COL_CURR_AFTER) % 2 == CoroutineKind::Coord.tag(),
        op == Opcode::CallMethod ==> value_of(z, COL_CALL_TARGET) % 2 == CoroutineKind::Utxo.tag(),
        value_of(z, COL_CURR_PHASE_AFTER) == op.phase_after(before).value(),
{
    lemma_sections(z, h);
    let coord = CoroutineKind::Coord;
    let utxo = CoroutineKind::Utxo;
    let executing = CurrPhase::Executing;
    if op == Opcode::NewUtxo {
        let rows = new_utxo_rows();
        assert(rows[0].holds(z, h));
        assert(rows[1].holds(z, h));
        assert(rows[2].holds(z, h));
        let after = CurrPhase::CtorEnterPending;
        lemma_turn(z, h, "new utxo constraints", op, COL_CURR_BEFORE, coord, executing, after);
    } else if op == Opcode::EnterConstructor {
        let rows = enter_constructor_rows();
        assert(rows[0].holds(z, h));
        assert(rows[1].holds(z, h));
        assert(rows[2].holds(z, h));
        let pending = CurrPhase::CtorEnterPending;
        let label = "enter constructor constraints";
        lemma_turn(z, h, label, op, COL_CURR_BEFORE, utxo, pending, CurrPhase::Yield);
    } else if op == Opcode::YieldBegin {
        let rows = yield_begin_rows();
        assert(rows[0].holds(z, h));
        assert(rows[1].holds(z, h));
        assert(rows[2].holds(z, h));
        let label = "yield begin constraints";
        lemma_turn(z, h, label, op, COL_CURR_BEFORE, utxo, executing, CurrPhase::Yield);
    } else if op == Opcode::RegisterMethod {
        let rows = register_method_rows();
        assert(rows[0].holds(z, h));
        assert(rows[1].holds(z, h));
        assert(rows[2].holds(z, h));
        let label = "register method constraints";
        lemma_turn(z, h, label, op, COL_CURR_BEFORE, utxo, CurrPhase::Yield, CurrPhase::Yield);
    } else if op == Opcode::CallMethod {
        let rows = call_method_rows();
        assert(rows[0].holds(z, h));
        assert(rows[1].holds(z, h));
        assert(rows[2].holds(z, h));
        assert(rows[3].holds(z, h));
        let label = "call method constraints";
        let after = CurrPhase::MethodEnterPending;
        lemma_turn(z, h, label, op, COL_CURR_BEFORE, coord, executing, after);
        lemma_turn(z, h, label, op, COL_CALL_TARGET, utxo, executing, after);
    } else if op == Opcode::EnterMethod {
        let rows = enter_method_rows();
        assert(rows[0].holds(z, h));
        assert(rows[1].holds(z, h));
        assert(rows[2].holds(z, h));
        let pending = CurrPhase::MethodEnterPending;
        let label = "enter method constraints";
        lemma_turn(z, h, label, op, COL_CURR_BEFORE, utxo, pending, executing);
    } else if op == Opcode::Return {
        let rows = return_rows();
        let label = "return constraints";
        assert(rows[0].holds(z, h));
        assert(rows[1].holds(z, h));
        assert(rows[2].holds(z, h));
        let low = bit_of(COL_CURR_PHASE_BEFORE as int, 0) as usize;
        let high = bit_of(COL_CURR_PHASE_BEFORE as int, 1) as usize;
        lemma_equal_row(label, z, h, op, op, low, high);
        lemma2_to64();
        law_bounded_columns_are_in_range(z, h, COL_CURR_PHASE_BEFORE as int);
        let v = value_of(z, COL_CURR_PHASE_BEFORE);
        assert(value_of(z, low) == crate::range_check::bit(v, 0));
        assert(value_of(z, high) == crate::range_check::bit(v, 1));
        lemma_constant_row(label, z, h, op, op, COL_CURR_PHASE_AFTER, executing.value() as i64);
        let bit = bit_of(COL_CURR_AFTER as int, 0) as usize;
        lemma_constant_row(label, z, h, op, op, bit, coord.tag() as i64);
        lemma_parity(z, h, COL_CURR_AFTER);
    } else if op == Opcode::Padding {
        lemma_padding_phase(z, h);
    } else {
        let rows = non_execution_rows();
        assert(rows[0].holds(z, h));
        let terms = seq![(COL_CURR_PHASE_AFTER, 1i64), (COL_CURR_PHASE_BEFORE, -1i64)];
        let label = "non-execution preserves coroutine state";
        lemma_group_row(OpcodeGroup::NonExecution, label, terms, z, h, op);
        lemma_equal_values(z, COL_CURR_PHASE_AFTER, COL_CURR_PHASE_BEFORE);
    }
}

/// What padding keeps of the phase and of the pending constructor.
proof fn lemma_padding_phase(z: Seq<u64>, h: spec_fn([u64; 4], [u64; 8]) -> [u64; 4])
    requires
        valid_row(z, h),
        selects_only(z, Opcode::Padding),
    ensures
        value_of(z, COL_CURR_PHASE_AFTER) == value_of(z, COL_CURR_PHASE_BEFORE),
        pending_kept(z),
{
    law_padding_preserves_state(z, h, 6);
    law_padding_preserves_state(z, h, 10);
    law_padding_preserves_state(z, h, 11);
    law_padding_preserves_state(z, h, 12);
}

/// Whether a row keeps the key of the pending constructor.
pub open spec fn pending_kept(z: Seq<u64>) -> bool {
    &&& value_of(z, COL_PENDING_CTOR_PRESENT_AFTER) == value_of(z, COL_PENDING_CTOR_PRESENT_BEFORE)
    &&& value_of(z, COL_PENDING_CTOR_HOLDER_AFTER) == value_of(z, COL_PENDING_CTOR_HOLDER_BEFORE)
    &&& value_of(z, COL_PENDING_CTOR_HANDLE_AFTER) == value_of(z, COL_PENDING_CTOR_HANDLE_BEFORE)
}

proof fn lemma_pending_rows(
    z: Seq<u64>,
    h: spec_fn([u64; 4], [u64; 8]) -> [u64; 4],
    label: &'static str,
    op: Opcode,
    rows: Seq<Equation>,
    first: int,
)
    requires
        selects_only(z, op),
        satisfied(rows, z, h),
        0 <= first,
        rows.len() == first + 3,
        rows[first] == preserve_pending_rows(label, op)[0],
        rows[first + 1] == preserve_pending_rows(label, op)[1],
        rows[first + 2] == preserve_pending_rows(label, op)[2],
    ensures
        pending_kept(z),
{
    assert(rows[first].holds(z, h));
    assert(rows[first + 1].holds(z, h));
    assert(rows[first + 2].holds(z, h));
    let present = COL_PENDING_CTOR_PRESENT_BEFORE;
    let holder = COL_PENDING_CTOR_HOLDER_BEFORE;
    let handle = COL_PENDING_CTOR_HANDLE_BEFORE;
    lemma_equal_row(label, z, h, op, op, COL_PENDING_CTOR_PRESENT_AFTER, present);
    lemma_equal_row(label, z, h, op, op, COL_PENDING_CTOR_HOLDER_AFTER, holder);
    lemma_equal_row(label, z, h, op, op, COL_PENDING_CTOR_HANDLE_AFTER, handle);
}

/// Only the start of a constructor and a return change the pending constructor: its
/// start records the coordinator and the handle, and needs that none is pending.
pub proof fn law_pending_constructor_follows_opcode(
    z: Seq<u64>,
    h: spec_fn([u64; 4], [u64; 8]) -> [u64; 4],
    op: Opcode,
)
    requires
        valid_row(z, h),
        selects_only(z, op),
    ensures
        op != Opcode::NewUtxo && op != Opcode::Return ==> pending_kept(z),
        op == Opcode::NewUtxo ==> value_of(z, COL_PENDING_CTOR_PRESENT_BEFORE) == 0,
        op == Opcode::NewUtxo ==> value_of(z, COL_PENDING_CTOR_PRESENT_AFTER) == 1,
        op == Opcode::NewUtxo ==> value_of(z, COL_PENDING_CTOR_HOLDER_AFTER) == value_of(
            z,
            COL_CURR_BEFORE,
        ),
        op == Opcode::NewUtxo ==> value_of(z, COL_PENDING_CTOR_HANDLE_AFTER) == value_of(
            z,
            COL_RESOURCE_RESOLVER_ADDR_HANDLE,
        ),
        op == Opcode::EnterConstructor ==> value_of(z, COL_PENDING_CTOR_PRESENT_BEFORE) == 1,
{
    lemma_sections(z, h);
    if op == Opcode::NewUtxo {
        let rows = new_utxo_rows();
        let label = "new utxo constraints";
        assert(rows[4].holds(z, h));
        assert(rows[5].holds(z, h));
        assert(rows[6].holds(z, h));
        assert(rows[7].holds(z, h));
        lemma_opcode_row(label, seq![(COL_PENDING_CTOR_PRESENT_BEFORE, 1i64)], z, h, op, op);
        lemma_sum1(z, COL_PENDING_CTOR_PRESENT_BEFORE, 1);
        lemma_small_zero(value_of(z, COL_PENDING_CTOR_PRESENT_BEFORE) as int);
        lemma_constant_row(label, z, h, op, op, COL_PENDING_CTOR_PRESENT_AFTER, 1);
        lemma_equal_row(label, z, h, op, op, COL_PENDING_CTOR_HOLDER_AFTER, COL_CURR_BEFORE);
        let handle = COL_RESOURCE_RESOLVER_ADDR_HANDLE;
        lemma_equal_row(label, z, h, op, op, COL_PENDING_CTOR_HANDLE_AFTER, handle);
    } else if op == Opcode::EnterConstructor {
        let label = "enter constructor constraints";
        assert(enter_constructor_rows()[3].holds(z, h));
        lemma_constant_row(label, z, h, op, op, COL_PENDING_CTOR_PRESENT_BEFORE, 1);
        lemma_pending_rows(z, h, label, op, enter_constructor_rows(), 4);
    } else if op == Opcode::YieldBegin {
        lemma_pending_rows(z, h, "yield begin constraints", op, yield_begin_rows(), 5);
    } else if op == Opcode::RegisterMethod {
        lemma_pending_rows(z, h, "register method constraints", op, register_method_rows(), 7);
    } else if op == Opcode::CallMethod {
        lemma_pending_rows(z, h, "call method constraints", op, call_method_rows(), 9);
    } else if op == Opcode::EnterMethod {
        lemma_pending_rows(z, h, "enter method constraints", op, enter_method_rows(), 3);
    } else if op == Opcode::Padding {
        lemma_padding_phase(z, h);
    } else if op != Opcode::Return {
        lemma_kept_without_execution(z, h, op);
    }
}

/// Without execution the pending constructor stays.
proof fn lemma_kept_without_execution(
    z: Seq<u64>,
    h: spec_fn([u64; 4], [u64; 8]) -> [u64; 4],
    op: Opcode,
)
    requires
        valid_row(z, h),
        selects_only(z, op),
        !op.is_execution(),
        op != Opcode::Padding,
    ensures
        pending_kept(z),
{
    lemma_sections(z, h);
    let rows = non_execution_rows();
    let group = OpcodeGroup::NonExecution;
    let label = "non-execution preserves coroutine state";
    assert(rows[1].holds(z, h));
    assert(rows[2].holds(z, h));
    assert(rows[3].holds(z, h));
    let present = seq![
        (COL_PENDING_CTOR_PRESENT_AFTER, 1i64),
        (COL_PENDING_CTOR_PRESENT_BEFORE, -1i64),
    ];
    let holder = seq![
        (COL_PENDING_CTOR_HOLDER_AFTER, 1i64),
        (COL_PENDING_CTOR_HOLDER_BEFORE, -1i64),
    ];
    let handle = seq![
        (COL_PENDING_CTOR_HANDLE_AFTER, 1i64),
        (COL_PENDING_CTOR_HANDLE_BEFORE, -1i64),
    ];
    lemma_group_row(group, label, present, z, h, op);
    lemma_group_row(group, label, holder, z, h, op);
    lemma_group_row(group, label, handle, z, h, op);
    lemma_equal_values(z, COL_PENDING_CTOR_PRESENT_AFTER, COL_PENDING_CTOR_PRESENT_BEFORE);
    lemma_equal_values(z, COL_PENDING_CTOR_HOLDER_AFTER, COL_PENDING_CTOR_HOLDER_BEFORE);
    lemma_equal_values(z, COL_PENDING_CTOR_HANDLE_AFTER, COL_PENDING_CTOR_HANDLE_BEFORE);
}

/// A constructor runs in the UTXO that the allocator gives out next.
pub proof fn law_constructor_runs_in_the_next_utxo(
    z: Seq<u64>,
    h: spec_fn([u64; 4], [u64; 8]) -> [u64; 4],
)
    requires
        valid_row(z, h),
        selects_only(z, Opcode::NewUtxo),
    ensures
        value_of(z, COL_CALL_TARGET) == 2 * value_of(z, COL_NEXT_UTXO_ID_BEFORE) + 1,
        value_of(z, COL_RESOURCE_RESOLVER_ADDR_CID) == value_of(z, COL_CURR_BEFORE),
{
    lemma_sections(z, h);
    let op = Opcode::NewUtxo;
    let label = "new utxo constraints";
    assert(new_utxo_rows()[3].holds(z, h));
    assert(new_utxo_rows()[8].holds(z, h));
    let terms = seq![(COL_CALL_TARGET, 1i64), (COL_NEXT_UTXO_ID_BEFORE, -2i64), (COL_ONE, -1i64)];
    lemma_opcode_row(label, terms, z, h, op, op);
    lemma_sum3(z, COL_CALL_TARGET, 1, COL_NEXT_UTXO_ID_BEFORE, -2i64, COL_ONE, -1i64);
    lemma_word(z, h, COL_CALL_TARGET);
    lemma_word(z, h, COL_NEXT_UTXO_ID_BEFORE);
    lemma_small_zero(
        value_of(z, COL_CALL_TARGET) - 2 * value_of(z, COL_NEXT_UTXO_ID_BEFORE) - 1,
    );
    lemma_equal_row(label, z, h, op, op, COL_RESOURCE_RESOLVER_ADDR_CID, COL_CURR_BEFORE);
}

/// A call goes to the UTXO that the resolver gives for the caller's handle, and names a
/// log entry of that UTXO in its current ABI generation.
pub proof fn law_calls_use_the_current_abi(
    z: Seq<u64>,
    h: spec_fn([u64; 4], [u64; 8]) -> [u64; 4],
)
    requires
        valid_row(z, h),
        selects_only(z, Opcode::CallMethod),
    ensures
        value_of(z, COL_RESOURCE_RESOLVER_ADDR_CID) == value_of(z, COL_CURR_BEFORE),
        value_of(z, COL_RESOURCE_RESOLVER_VALUE) == value_of(z, COL_CALL_TARGET),
        value_of(z, COL_ABI_GENERATION_ADDR) == value_of(z, COL_CALL_TARGET),
        value_of(z, COL_ENABLED_METHOD_LOG_UTXO) == value_of(z, COL_CALL_TARGET),
        value_of(z, COL_ENABLED_METHOD_LOG_GENERATION) == value_of(z, COL_ABI_GENERATION_BEFORE),
{
    lemma_sections(z, h);
    let op = Opcode::CallMethod;
    let label = "call method constraints";
    let rows = call_method_rows();
    assert(rows[4].holds(z, h));
    assert(rows[5].holds(z, h));
    assert(rows[6].holds(z, h));
    assert(rows[7].holds(z, h));
    assert(rows[8].holds(z, h));
    let generation = COL_ENABLED_METHOD_LOG_GENERATION;
    lemma_equal_row(label, z, h, op, op, COL_RESOURCE_RESOLVER_ADDR_CID, COL_CURR_BEFORE);
    lemma_equal_row(label, z, h, op, op, COL_RESOURCE_RESOLVER_VALUE, COL_CALL_TARGET);
    lemma_equal_row(label, z, h, op, op, COL_ABI_GENERATION_ADDR, COL_CALL_TARGET);
    lemma_equal_row(label, z, h, op, op, COL_ENABLED_METHOD_LOG_UTXO, COL_CALL_TARGET);
    lemma_equal_row(label, z, h, op, op, generation, COL_ABI_GENERATION_BEFORE);
}

/// A registration of the running UTXO goes to the end of the log, under its current ABI
/// generation.
pub proof fn law_registrations_use_the_current_generation(
    z: Seq<u64>,
    h: spec_fn([u64; 4], [u64; 8]) -> [u64; 4],
)
    requires
        valid_row(z, h),
        selects_only(z, Opcode::RegisterMethod),
    ensures
        value_of(z, COL_ABI_GENERATION_ADDR) == value_of(z, COL_CURR_BEFORE),
        value_of(z, COL_ENABLED_METHOD_LOG_ADDR) == value_of(z, COL_ENABLED_METHOD_LOG_LEN_BEFORE),
        value_of(z, COL_ENABLED_METHOD_LOG_UTXO) == value_of(z, COL_CURR_BEFORE),
        value_of(z, COL_ENABLED_METHOD_LOG_GENERATION) == value_of(z, COL_ABI_GENERATION_BEFORE),
{
    lemma_sections(z, h);
    let op = Opcode::RegisterMethod;
    let label = "register method constraints";
    let rows = register_method_rows();
    assert(rows[3].holds(z, h));
    assert(rows[4].holds(z, h));
    assert(rows[5].holds(z, h));
    assert(rows[6].holds(z, h));
    let length = COL_ENABLED_METHOD_LOG_LEN_BEFORE;
    let generation = COL_ENABLED_METHOD_LOG_GENERATION;
    lemma_equal_row(label, z, h, op, op, COL_ABI_GENERATION_ADDR, COL_CURR_BEFORE);
    lemma_equal_row(label, z, h, op, op, COL_ENABLED_METHOD_LOG_ADDR, length);
    lemma_equal_row(label, z, h, op, op, COL_ENABLED_METHOD_LOG_UTXO, COL_CURR_BEFORE);
    lemma_equal_row(label, z, h, op, op, generation, COL_ABI_GENERATION_BEFORE);
}

/// A yield gives the running UTXO a new ABI generation, one above its last.
pub proof fn law_yields_start_a_generation(
    z: Seq<u64>,
    h: spec_fn([u64; 4], [u64; 8]) -> [u64; 4],
)
    requires
        valid_row(z, h),
        selects_only(z, Opcode::YieldBegin),
    ensures
        value_of(z, COL_ABI_GENERATION_ADDR) == value_of(z, COL_CURR_BEFORE),
        value_of(z, COL_ABI_GENERATION_AFTER) == value_of(z, COL_ABI_GENERATION_BEFORE) + 1,
{
    lemma_sections(z, h);
    let op = Opcode::YieldBegin;
    let label = "yield begin constraints";
    let rows = yield_begin_rows();
    assert(rows[3].holds(z, h));
    assert(rows[4].holds(z, h));
    lemma_equal_row(label, z, h, op, op, COL_ABI_GENERATION_ADDR, COL_CURR_BEFORE);
    let terms = seq![
        (COL_ABI_GENERATION_AFTER, 1i64),
        (COL_ABI_GENERATION_BEFORE, -1i64),
        (COL_ONE, -1i64),
    ];
    lemma_opcode_row(label, terms, z, h, op, op);
    lemma_sum3(z, COL_ABI_GENERATION_AFTER, 1, COL_ABI_GENERATION_BEFORE, -1i64, COL_ONE, -1i64);
    lemma_word(z, h, COL_ABI_GENERATION_AFTER);
    lemma_word(z, h, COL_ABI_GENERATION_BEFORE);
    lemma_small_zero(
        value_of(z, COL_ABI_GENERATION_AFTER) - value_of(z, COL_ABI_GENERATION_BEFORE) - 1,
    );
}

/// The log grows by one with each registration and each loaded method, and never else.
pub proof fn law_log_grows_with_methods(
    z: Seq<u64>,
    h: spec_fn([u64; 4], [u64; 8]) -> [u64; 4],
    op: Opcode,
)
    requires
        valid_row(z, h),
        selects_only(z, op),
    ensures
        value_of(z, COL_ENABLED_METHOD_LOG_LEN_AFTER) == value_of(
            z,
            COL_ENABLED_METHOD_LOG_LEN_BEFORE,
        ) + (if op.appends_method() {
            1int
        } else {
            0
        }),
{
    lemma_sections(z, h);
    assert(transition_rows()[6].holds(z, h));
    let after = COL_ENABLED_METHOD_LOG_LEN_AFTER;
    let before = COL_ENABLED_METHOD_LOG_LEN_BEFORE;
    let register = COL_SEL_REGISTER_METHOD;
    let preload = COL_SEL_PRELOAD_METHOD;
    let terms = seq![(after, 1i64), (before, -1i64), (register, -1i64), (preload, -1i64)];
    lemma_linear_holds("enabled method log transition", terms, z, h);
    lemma_sum4(z, after, 1, before, -1i64, register, -1i64, preload, -1i64);
    lemma_word(z, h, after);
    lemma_word(z, h, before);
    assert(value_of(z, Opcode::RegisterMethod.selector()) <= 1);
    assert(value_of(z, Opcode::PreloadMethod.selector()) <= 1);
    lemma_small_zero(
        value_of(z, after) - value_of(z, before) - value_of(z, register) - value_of(z, preload),
    );
}

} // verus!
