//! What the parts of the relation that several opcodes share say of a row that shows a
//! witness record.

use vstd::prelude::*;

use crate::assignment::{lemma_inverse, shows};
use crate::ccs::{non_execution_rows, nonempty_stack_row, one_hot_row, padding_rows};
use crate::exactness::{
    column_ranged, lemma_pending_key, lemma_rows10, lemma_rows4, lemma_rows5, ranged,
};
use crate::field::{residue, vanishes, FIELD_MODULUS};
use crate::groups::OpcodeGroup;
use crate::ivc_state::{carried, lemma_packed_injective, TxPhase};
use crate::layout::{
    bit_of, COL_ABI_METHOD_COUNT_BEFORE, COL_ABI_METHOD_COUNT_INVERSE, COL_ABI_METHOD_COUNT_READ,
    COL_ABI_METHOD_COUNT_WRITE, COL_ABI_READ_ORDINAL_AFTER, COL_ABI_READ_ORDINAL_BEFORE,
    COL_ABI_READ_REMAINING_AFTER, COL_ABI_READ_REMAINING_BEFORE, COL_BOUNDARY_UTXO,
    COL_CALL_SP_AFTER, COL_CALL_SP_BEFORE, COL_CALL_SP_BEFORE_INVERSE, COL_CURR_AFTER,
    COL_CURR_BEFORE, COL_CURR_PHASE_AFTER, COL_CURR_PHASE_BEFORE,
    COL_ENABLED_METHOD_LOG_LEN_AFTER, COL_ENABLED_METHOD_LOG_LEN_BEFORE, COL_EVENT_ACTIVE,
    COL_EVENT_OWNER, COL_LAST_INPUT_HAS_ABI_AFTER, COL_LAST_INPUT_HAS_ABI_BEFORE,
    COL_METHOD_APPEND, COL_NEXT_UTXO_ID_AFTER, COL_NEXT_UTXO_ID_BEFORE, COL_ONE,
    COL_OUTPUT_CURSOR_AFTER, COL_OUTPUT_CURSOR_BEFORE, COL_PENDING_CTOR_HANDLE_AFTER,
    COL_PENDING_CTOR_HANDLE_BEFORE, COL_PENDING_CTOR_HOLDER_AFTER, COL_PENDING_CTOR_HOLDER_BEFORE,
    COL_PENDING_CTOR_PRESENT_AFTER, COL_PENDING_CTOR_PRESENT_BEFORE, COL_SEL_FINISH_TRANSACTION,
    COL_SEL_GET_STORAGE, COL_SEL_PRELOAD_METHOD, COL_SEL_READ_ABI, COL_SEL_SET_STORAGE,
    COL_SEL_SKIP_CONSUMED, COL_TX_PHASE_AFTER, COL_TX_PHASE_BEFORE,
};
use crate::memory::value_of;
use crate::opcode::Opcode;
use crate::range_check::bit;
use crate::relation::{linear, product, satisfied, Term};
use crate::selection::{
    lemma_constant_value, lemma_equal_row, lemma_equal_values, lemma_group_row, lemma_group_sum,
    lemma_opcode_row, selects_only,
};
use crate::soundness::{
    lemma_linear_holds, lemma_product_holds, lemma_small_zero, lemma_sum1, lemma_sum2, lemma_sum3,
    lemma_sum4, lemma_value_sum_prefix, value_sum,
};
use crate::step::Wit;
use crate::transaction::{
    boundary_flag_rows, boundary_phase_rows, boundary_progress_rows, group_constant_row,
    nonempty_abi_row,
};
use crate::witness::flag;
use vstd::arithmetic::power2::lemma2_to64;

verus! {

/// Exactly one opcode is selected.
pub(crate) proof fn lemma_one_hot(z: Seq<u64>, w: Wit, h: spec_fn([u64; 4], [u64; 8]) -> [u64; 4])
    requires
        shows(z, w),
    ensures
        one_hot_row().holds(z, h),
{
    let one = seq![(COL_ONE, 1i64)];
    let all = OpcodeGroup::All;
    lemma_group_sum(all, z, w.opcode);
    lemma_product_holds("opcode selectors are one-hot", all.selectors(), one, one, z, h);
    lemma_sum1(z, COL_ONE, 1);
    lemma_small_zero(0);
}

/// What an equation for an inverse says: where its gate is open, the value has one.
proof fn lemma_inverse_row(
    label: &'static str,
    z: Seq<u64>,
    h: spec_fn([u64; 4], [u64; 8]) -> [u64; 4],
    column: usize,
    inverse: usize,
    gate: Seq<Term>,
    open: bool,
    source: u64,
)
    requires
        value_of(z, column) == residue(source as int),
        value_of(z, inverse) == (if open {
            crate::field::inverse_or_zero(source)
        } else {
            0
        }),
        value_sum(gate, z, gate.len() as int) == flag(open),
    ensures
        product(label, seq![(column, 1i64)], seq![(inverse, 1i64)], gate).holds(z, h) <==> (open
            ==> residue(source as int) != 0),
{
    let a = seq![(column, 1i64)];
    let b = seq![(inverse, 1i64)];
    lemma_product_holds(label, a, b, gate, z, h);
    lemma_sum1(z, column, 1);
    lemma_sum1(z, inverse, 1);
    let p = FIELD_MODULUS as int;
    let x = value_of(z, column) as int;
    let y = value_of(z, inverse) as int;
    lemma_inverse(source);
    assert(x * 0 == 0);
    assert(0 * y == 0);
    if open {
        if residue(source as int) == 0 {
            if vanishes(-1) {
                lemma_small_zero(-1);
            }
        } else {
            vstd::arithmetic::div_mod::lemma_mul_mod_noop_left(source as int, y, p);
            vstd::arithmetic::div_mod::lemma_sub_mod_noop(x * y, 1, p);
            vstd::arithmetic::div_mod::lemma_small_mod(1, p as nat);
            assert((x * y) % p == 1);
        }
    }
}

/// An executing coroutine has a frame.
pub open spec fn rule_frame(w: Wit) -> bool {
    w.opcode.is_execution() ==> residue(w.call_sp_before as int) != 0
}

pub(crate) proof fn lemma_frame(z: Seq<u64>, w: Wit, h: spec_fn([u64; 4], [u64; 8]) -> [u64; 4])
    requires
        shows(z, w),
    ensures
        nonempty_stack_row().holds(z, h) <==> rule_frame(w),
{
    lemma_group_sum(OpcodeGroup::Execution, z, w.opcode);
    lemma_inverse_row(
        "execution requires nonempty call stack",
        z,
        h,
        COL_CALL_SP_BEFORE,
        COL_CALL_SP_BEFORE_INVERSE,
        OpcodeGroup::Execution.selectors(),
        w.opcode.is_execution(),
        w.call_sp_before,
    );
}

/// An exported UTXO has a nonempty ABI.
pub open spec fn rule_nonempty_abi(w: Wit) -> bool {
    w.opcode == Opcode::GetStorage ==> w.abi_method_count_before != 0
}

pub(crate) proof fn lemma_nonempty_abi(
    z: Seq<u64>,
    w: Wit,
    h: spec_fn([u64; 4], [u64; 8]) -> [u64; 4],
)
    requires
        shows(z, w),
    ensures
        nonempty_abi_row().holds(z, h) <==> rule_nonempty_abi(w),
{
    let gate = seq![(COL_SEL_GET_STORAGE, 1i64)];
    lemma_sum1(z, COL_SEL_GET_STORAGE, 1);
    assert(value_of(z, Opcode::GetStorage.selector()) == flag(w.opcode == Opcode::GetStorage));
    vstd::arithmetic::div_mod::lemma_small_mod(
        w.abi_method_count_before as nat,
        FIELD_MODULUS as nat,
    );
    lemma_inverse_row(
        "transaction boundaries",
        z,
        h,
        COL_ABI_METHOD_COUNT_BEFORE,
        COL_ABI_METHOD_COUNT_INVERSE,
        gate,
        w.opcode == Opcode::GetStorage,
        w.abi_method_count_before as u64,
    );
}

/// Padding leaves the carried state as it is.
pub open spec fn rule_padding(w: Wit) -> bool {
    w.opcode == Opcode::Padding ==> {
        &&& w.tx_after == w.tx_before
        &&& w.curr_after == w.curr_before
        &&& w.curr_phase_after == w.curr_phase_before
        &&& residue(w.call_sp_after as int) == residue(w.call_sp_before as int)
        &&& w.next_utxo_id_after == w.next_utxo_id_before
        &&& w.enabled_method_log_len_after == w.enabled_method_log_len_before
        &&& w.pending_ctor_key_after == w.pending_ctor_key_before
    }
}

/// Whether carried column `i` has one value before and after a row.
spec fn kept(z: Seq<u64>, i: int) -> bool {
    value_of(z, carried()[i].previous_step_column) == value_of(z, carried()[i].next_step_column)
}

proof fn lemma_padding_rows(z: Seq<u64>, w: Wit, h: spec_fn([u64; 4], [u64; 8]) -> [u64; 4])
    requires
        shows(z, w),
    ensures
        satisfied(padding_rows(), z, h) <==> (w.opcode == Opcode::Padding ==> forall|i: int|
            0 <= i < 13 ==> kept(z, i)),
{
    let rows = padding_rows();
    assert forall|i: int| 0 <= i < 13 implies (#[trigger] rows[i].holds(z, h) <==> (w.opcode
        == Opcode::Padding ==> kept(z, i))) by {
        lemma_equal_row(
            "padding preserves state",
            z,
            h,
            Opcode::Padding,
            w.opcode,
            carried()[i].previous_step_column,
            carried()[i].next_step_column,
        );
    }
    if satisfied(rows, z, h) && w.opcode == Opcode::Padding {
        assert forall|i: int| 0 <= i < 13 implies kept(z, i) by {
            assert(rows[i].holds(z, h));
        }
    }
}

/// Whether every carried column has one value before and after a row.
spec fn all_kept(z: Seq<u64>) -> bool {
    &&& value_of(z, COL_TX_PHASE_AFTER) == value_of(z, COL_TX_PHASE_BEFORE)
    &&& value_of(z, COL_LAST_INPUT_HAS_ABI_AFTER) == value_of(z, COL_LAST_INPUT_HAS_ABI_BEFORE)
    &&& value_of(z, COL_OUTPUT_CURSOR_AFTER) == value_of(z, COL_OUTPUT_CURSOR_BEFORE)
    &&& value_of(z, COL_ABI_READ_REMAINING_AFTER) == value_of(z, COL_ABI_READ_REMAINING_BEFORE)
    &&& value_of(z, COL_ABI_READ_ORDINAL_AFTER) == value_of(z, COL_ABI_READ_ORDINAL_BEFORE)
    &&& value_of(z, COL_CURR_AFTER) == value_of(z, COL_CURR_BEFORE)
    &&& value_of(z, COL_CURR_PHASE_AFTER) == value_of(z, COL_CURR_PHASE_BEFORE)
    &&& value_of(z, COL_CALL_SP_AFTER) == value_of(z, COL_CALL_SP_BEFORE)
    &&& value_of(z, COL_NEXT_UTXO_ID_AFTER) == value_of(z, COL_NEXT_UTXO_ID_BEFORE)
    &&& value_of(z, COL_ENABLED_METHOD_LOG_LEN_AFTER) == value_of(z, COL_ENABLED_METHOD_LOG_LEN_BEFORE)
    &&& value_of(z, COL_PENDING_CTOR_PRESENT_AFTER) == value_of(z, COL_PENDING_CTOR_PRESENT_BEFORE)
    &&& value_of(z, COL_PENDING_CTOR_HOLDER_AFTER) == value_of(z, COL_PENDING_CTOR_HOLDER_BEFORE)
    &&& value_of(z, COL_PENDING_CTOR_HANDLE_AFTER) == value_of(z, COL_PENDING_CTOR_HANDLE_BEFORE)
}

proof fn lemma_all_kept(z: Seq<u64>)
    ensures
        all_kept(z) <==> (forall|i: int| 0 <= i < 13 ==> kept(z, i)),
{
    if forall|i: int| 0 <= i < 13 ==> kept(z, i) {
        assert(kept(z, 0));
        assert(kept(z, 1));
        assert(kept(z, 2));
        assert(kept(z, 3));
        assert(kept(z, 4));
        assert(kept(z, 5));
        assert(kept(z, 6));
        assert(kept(z, 7));
        assert(kept(z, 8));
        assert(kept(z, 9));
        assert(kept(z, 10));
        assert(kept(z, 11));
        assert(kept(z, 12));
    }
}

pub(crate) proof fn lemma_padding(z: Seq<u64>, w: Wit, h: spec_fn([u64; 4], [u64; 8]) -> [u64; 4])
    requires
        shows(z, w),
    ensures
        satisfied(padding_rows(), z, h) <==> rule_padding(w),
{
    lemma_padding_rows(z, w, h);
    lemma_all_kept(z);
    lemma_pending_key(w);
    lemma_packed_injective(w.curr_after, w.curr_before);
}

/// Without execution the coroutine's phase and the pending constructor stay.
pub open spec fn rule_non_execution(w: Wit) -> bool {
    !w.opcode.is_execution() && w.opcode != Opcode::Padding ==> {
        &&& w.curr_phase_after == w.curr_phase_before
        &&& w.pending_ctor_key_after == w.pending_ctor_key_before
    }
}

/// What an equation of a group on two equal columns says of a row.
proof fn lemma_group_equal(
    label: &'static str,
    z: Seq<u64>,
    h: spec_fn([u64; 4], [u64; 8]) -> [u64; 4],
    op: Opcode,
    group: OpcodeGroup,
    left: usize,
    right: usize,
)
    requires
        selects_only(z, op),
    ensures
        product(label, group.selectors(), seq![(left, 1i64), (right, -1i64)], seq![]).holds(z, h)
            <==> (group.has(op) ==> value_of(z, left) == value_of(z, right)),
{
    lemma_group_row(group, label, seq![(left, 1i64), (right, -1i64)], z, h, op);
    lemma_equal_values(z, left, right);
}

/// What [`group_constant_row`] says of a row.
proof fn lemma_group_constant(
    z: Seq<u64>,
    h: spec_fn([u64; 4], [u64; 8]) -> [u64; 4],
    op: Opcode,
    group: OpcodeGroup,
    column: usize,
    value: i64,
)
    requires
        selects_only(z, op),
        value_of(z, COL_ONE) == 1,
        0 <= value < 0x1_0000_0000,
    ensures
        group_constant_row(group, column, value).holds(z, h) <==> (group.has(op) ==> value_of(
            z,
            column,
        ) == value),
{
    let terms = seq![(column, 1i64), (COL_ONE, (-value) as i64)];
    lemma_group_row(group, "transaction boundaries", terms, z, h, op);
    lemma_constant_value(z, column, value);
}

pub(crate) proof fn lemma_non_execution(
    z: Seq<u64>,
    w: Wit,
    h: spec_fn([u64; 4], [u64; 8]) -> [u64; 4],
)
    requires
        shows(z, w),
    ensures
        satisfied(non_execution_rows(), z, h) <==> rule_non_execution(w),
{
    let rows = non_execution_rows();
    let label = "non-execution preserves coroutine state";
    let group = OpcodeGroup::NonExecution;
    let op = w.opcode;
    let phase = COL_CURR_PHASE_BEFORE;
    let present = COL_PENDING_CTOR_PRESENT_BEFORE;
    let holder = COL_PENDING_CTOR_HOLDER_BEFORE;
    let handle = COL_PENDING_CTOR_HANDLE_BEFORE;
    lemma_group_equal(label, z, h, op, group, COL_CURR_PHASE_AFTER, phase);
    lemma_group_equal(label, z, h, op, group, COL_PENDING_CTOR_PRESENT_AFTER, present);
    lemma_group_equal(label, z, h, op, group, COL_PENDING_CTOR_HOLDER_AFTER, holder);
    lemma_group_equal(label, z, h, op, group, COL_PENDING_CTOR_HANDLE_AFTER, handle);
    lemma_pending_key(w);
    lemma_rows4(rows, z, h);
}

/// What an equation of a flag says of a row.
pub(crate) proof fn lemma_flag(
    label: &'static str,
    z: Seq<u64>,
    h: spec_fn([u64; 4], [u64; 8]) -> [u64; 4],
    op: Opcode,
    group: OpcodeGroup,
    column: usize,
)
    requires
        selects_only(z, op),
        value_of(z, COL_ONE) == 1,
        value_of(z, column) == flag(group.has(op)),
    ensures
        linear(label, group.selectors().push((column, -1i64))).holds(z, h),
{
    let selectors = group.selectors();
    let terms = selectors.push((column, -1i64));
    lemma_linear_holds(label, terms, z, h);
    lemma_group_sum(group, z, op);
    lemma_value_sum_prefix(selectors, terms, z, selectors.len() as int);
    assert(value_sum(terms, z, terms.len() as int) == value_sum(
        terms,
        z,
        selectors.len() as int,
    ) - value_of(z, column));
    lemma_small_zero(0);
}

/// The output cursor moves with the output scan.
pub open spec fn rule_cursor(w: Wit) -> bool {
    w.tx_after.output_cursor == w.tx_before.output_cursor + (if w.opcode.scans_output() {
        1int
    } else {
        0
    })
}

pub(crate) proof fn lemma_flags(z: Seq<u64>, w: Wit, h: spec_fn([u64; 4], [u64; 8]) -> [u64; 4])
    requires
        shows(z, w),
    ensures
        satisfied(boundary_flag_rows(), z, h) <==> rule_cursor(w),
{
    let rows = boundary_flag_rows();
    let label = "transaction boundaries";
    let op = w.opcode;
    lemma_flag(label, z, h, op, OpcodeGroup::AppendsMethod, COL_METHOD_APPEND);
    lemma_flag(label, z, h, op, OpcodeGroup::HasEvent, COL_EVENT_ACTIVE);
    lemma_flag(label, z, h, op, OpcodeGroup::ScansOutput, COL_ABI_METHOD_COUNT_READ);
    lemma_flag(label, z, h, op, OpcodeGroup::WritesCount, COL_ABI_METHOD_COUNT_WRITE);
    let after = COL_OUTPUT_CURSOR_AFTER;
    let before = COL_OUTPUT_CURSOR_BEFORE;
    let get = COL_SEL_GET_STORAGE;
    let skip = COL_SEL_SKIP_CONSUMED;
    lemma_linear_holds(
        label,
        seq![(after, 1i64), (before, -1i64), (get, -1i64), (skip, -1i64)],
        z,
        h,
    );
    lemma_sum4(z, after, 1, before, -1i64, get, -1i64, skip, -1i64);
    assert(value_of(z, Opcode::GetStorage.selector()) == flag(op == Opcode::GetStorage));
    assert(value_of(z, Opcode::SkipConsumed.selector()) == flag(op == Opcode::SkipConsumed));
    let x = value_of(z, after) - value_of(z, before) - value_of(z, get) - value_of(z, skip);
    if vanishes(x) {
        lemma_small_zero(x);
    }
    lemma_rows5(rows, z, h);
}

/// Phases of the transaction, and whether its last input has an ABI.
pub open spec fn rule_phase(w: Wit) -> bool {
    let op = w.opcode;
    &&& op.is_execution() ==> w.tx_before.phase != TxPhase::Finished && w.tx_after.phase
        == TxPhase::Running && w.tx_before.last_input_has_abi
    &&& op == Opcode::SetStorage || op == Opcode::PreloadMethod ==> w.tx_before.phase
        == TxPhase::Loading && w.tx_after.phase == TxPhase::Loading
    &&& op == Opcode::ReadAbi ==> w.tx_before.phase == TxPhase::Running && w.tx_after.phase
        == TxPhase::Running
    &&& OpcodeGroup::PreservesInputFlag.has(op) ==> w.tx_after.last_input_has_abi
        == w.tx_before.last_input_has_abi
    &&& OpcodeGroup::Finalization.has(op) ==> w.tx_before.phase == TxPhase::Running && residue(
        w.call_sp_before as int,
    ) == 0 && w.tx_after.phase == (if op == Opcode::FinishTransaction {
        TxPhase::Finished
    } else {
        TxPhase::Running
    })
}

/// The rows on the phase of loading and of enumeration.
proof fn lemma_loading_rows(z: Seq<u64>, w: Wit, h: spec_fn([u64; 4], [u64; 8]) -> [u64; 4])
    requires
        shows(z, w),
    ensures
        boundary_phase_rows()[3].holds(z, h) <==> (w.opcode == Opcode::SetStorage || w.opcode
            == Opcode::PreloadMethod ==> w.tx_before.phase == TxPhase::Loading),
        boundary_phase_rows()[4].holds(z, h) <==> (w.opcode == Opcode::ReadAbi
            ==> w.tx_before.phase == TxPhase::Running),
        boundary_phase_rows()[5].holds(z, h) <==> (w.opcode == Opcode::SetStorage || w.opcode
            == Opcode::PreloadMethod || w.opcode == Opcode::ReadAbi ==> w.tx_after.phase
            == w.tx_before.phase),
{
    let label = "transaction boundaries";
    let op = w.opcode;
    let set = COL_SEL_SET_STORAGE;
    let preload = COL_SEL_PRELOAD_METHOD;
    let read = COL_SEL_READ_ABI;
    let none = Seq::<Term>::empty();
    assert(value_of(z, Opcode::SetStorage.selector()) == flag(op == Opcode::SetStorage));
    assert(value_of(z, Opcode::PreloadMethod.selector()) == flag(op == Opcode::PreloadMethod));
    assert(value_of(z, Opcode::ReadAbi.selector()) == flag(op == Opcode::ReadAbi));
    assert(value_sum(none, z, 0) == 0);
    lemma_small_zero(0);
    let a = seq![(set, 1i64), (preload, 1i64)];
    let b = seq![(COL_TX_PHASE_BEFORE, 1i64), (COL_ONE, 0i64)];
    lemma_product_holds(label, a, b, none, z, h);
    lemma_sum2(z, set, 1, preload, 1);
    lemma_sum2(z, COL_TX_PHASE_BEFORE, 1, COL_ONE, 0);
    let x = value_of(z, COL_TX_PHASE_BEFORE) as int;
    assert(1 * x == x);
    assert(0 * x == 0);
    if vanishes(x) {
        lemma_small_zero(x);
    }
    let fixed = seq![(COL_TX_PHASE_BEFORE, 1i64), (COL_ONE, -1i64)];
    lemma_opcode_row(label, fixed, z, h, Opcode::ReadAbi, op);
    lemma_constant_value(z, COL_TX_PHASE_BEFORE, 1);
    assert((-1i64) as i64 == -1i64);
    let c = seq![(set, 1i64), (preload, 1i64), (read, 1i64)];
    let d = seq![(COL_TX_PHASE_AFTER, 1i64), (COL_TX_PHASE_BEFORE, -1i64)];
    lemma_product_holds(label, c, d, none, z, h);
    lemma_sum3(z, set, 1, preload, 1, read, 1);
    lemma_equal_values(z, COL_TX_PHASE_AFTER, COL_TX_PHASE_BEFORE);
    let y = value_sum(d, z, 2);
    assert(1 * y == y);
    assert(0 * y == 0);
}

/// The row on the phase after finalization.
proof fn lemma_final_phase(z: Seq<u64>, w: Wit, h: spec_fn([u64; 4], [u64; 8]) -> [u64; 4])
    requires
        shows(z, w),
    ensures
        boundary_phase_rows()[9].holds(z, h) <==> (OpcodeGroup::Finalization.has(w.opcode)
            ==> w.tx_after.phase == (if w.opcode == Opcode::FinishTransaction {
            TxPhase::Finished
        } else {
            TxPhase::Running
        })),
{
    let group = OpcodeGroup::Finalization;
    let b = seq![(COL_TX_PHASE_AFTER, 1i64), (COL_ONE, -1i64)];
    let c = seq![(COL_SEL_FINISH_TRANSACTION, 1i64)];
    lemma_product_holds("transaction boundaries", group.selectors(), b, c, z, h);
    lemma_group_sum(group, z, w.opcode);
    lemma_sum2(z, COL_TX_PHASE_AFTER, 1, COL_ONE, -1i64);
    lemma_sum1(z, COL_SEL_FINISH_TRANSACTION, 1);
    assert(value_of(z, Opcode::FinishTransaction.selector()) == flag(
        w.opcode == Opcode::FinishTransaction,
    ));
    let x = value_of(z, COL_TX_PHASE_AFTER) - 1;
    assert(1 * x == x);
    assert(0 * x == 0);
    lemma_small_zero(0);
    if vanishes(x - value_of(z, COL_SEL_FINISH_TRANSACTION)) {
        lemma_small_zero(x - value_of(z, COL_SEL_FINISH_TRANSACTION));
    }
}

pub(crate) proof fn lemma_phase(z: Seq<u64>, w: Wit, h: spec_fn([u64; 4], [u64; 8]) -> [u64; 4])
    requires
        shows(z, w),
        ranged(z),
    ensures
        satisfied(boundary_phase_rows(), z, h) <==> rule_phase(w),
{
    let rows = boundary_phase_rows();
    let op = w.opcode;
    let execution = OpcodeGroup::Execution;
    let finalization = OpcodeGroup::Finalization;
    let high = bit_of(COL_TX_PHASE_BEFORE as int, 1) as usize;
    lemma_group_constant(z, h, op, execution, high, 0);
    lemma_group_constant(z, h, op, execution, COL_TX_PHASE_AFTER, 1);
    lemma_group_constant(z, h, op, execution, COL_LAST_INPUT_HAS_ABI_BEFORE, 1);
    lemma_loading_rows(z, w, h);
    lemma_group_equal(
        "transaction boundaries",
        z,
        h,
        op,
        OpcodeGroup::PreservesInputFlag,
        COL_LAST_INPUT_HAS_ABI_AFTER,
        COL_LAST_INPUT_HAS_ABI_BEFORE,
    );
    lemma_group_constant(z, h, op, finalization, COL_TX_PHASE_BEFORE, 1);
    lemma_group_constant(z, h, op, finalization, COL_CALL_SP_BEFORE, 0);
    lemma_final_phase(z, w, h);
    assert(column_ranged(z, COL_TX_PHASE_BEFORE as int));
    lemma2_to64();
    let v = value_of(z, COL_TX_PHASE_BEFORE);
    assert(value_of(z, high) == bit(v, 1));
    lemma_rows10(rows, z, h);
}

/// ABI enumeration in progress, and the owner of an event.
pub open spec fn rule_progress(w: Wit) -> bool {
    let op = w.opcode;
    &&& OpcodeGroup::EnumerationDone.has(op) ==> w.tx_before.abi_read_remaining == 0
    &&& OpcodeGroup::PreservesEnumeration.has(op) ==> w.tx_after.abi_read_remaining
        == w.tx_before.abi_read_remaining && w.tx_after.abi_read_ordinal
        == w.tx_before.abi_read_ordinal
    &&& OpcodeGroup::StorageEvent.has(op) ==> w.event_owner == w.boundary_utxo
    &&& OpcodeGroup::OwnEvent.has(op) ==> w.event_owner == w.curr_before
}

pub(crate) proof fn lemma_progress(z: Seq<u64>, w: Wit, h: spec_fn([u64; 4], [u64; 8]) -> [u64; 4])
    requires
        shows(z, w),
    ensures
        satisfied(boundary_progress_rows(), z, h) <==> rule_progress(w),
{
    let rows = boundary_progress_rows();
    let label = "transaction boundaries";
    let op = w.opcode;
    let remaining = COL_ABI_READ_REMAINING_BEFORE;
    let ordinal = COL_ABI_READ_ORDINAL_BEFORE;
    let preserves = OpcodeGroup::PreservesEnumeration;
    let storage = OpcodeGroup::StorageEvent;
    let own = OpcodeGroup::OwnEvent;
    lemma_group_row(OpcodeGroup::EnumerationDone, label, seq![(remaining, 1i64)], z, h, op);
    lemma_sum1(z, remaining, 1);
    lemma_small_zero(0);
    if vanishes(value_of(z, remaining) as int) {
        lemma_small_zero(value_of(z, remaining) as int);
    }
    lemma_group_equal(label, z, h, op, preserves, COL_ABI_READ_REMAINING_AFTER, remaining);
    lemma_group_equal(label, z, h, op, preserves, COL_ABI_READ_ORDINAL_AFTER, ordinal);
    lemma_group_equal(label, z, h, op, storage, COL_EVENT_OWNER, COL_BOUNDARY_UTXO);
    lemma_group_equal(label, z, h, op, own, COL_EVENT_OWNER, COL_CURR_BEFORE);
    lemma_packed_injective(w.event_owner, w.boundary_utxo);
    lemma_packed_injective(w.event_owner, w.curr_before);
    lemma_rows5(rows, z, h);
}

} // verus!
