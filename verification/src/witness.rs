//! Assignment of the columns of a row from its witness record.

use vstd::prelude::*;

use crate::commitment::{assign, with_commitment, with_input};
use crate::compression::{compression_of, is_compression};
use crate::field::{field_add, field_inverse, field_mul, field_sub, inverse_or_zero, residue, FIELD_MODULUS};
use crate::ivc_state::CoroutineId;
use crate::layout::{
    COLUMN_COUNT, COL_ABI_GENERATION_ADDR, COL_ABI_GENERATION_AFTER, COL_ABI_METHOD_COUNT_ADDR,
    COL_ABI_METHOD_COUNT_AFTER, COL_ABI_METHOD_COUNT_BEFORE, COL_ABI_METHOD_COUNT_INVERSE,
    COL_ABI_METHOD_COUNT_READ, COL_ABI_METHOD_COUNT_WRITE, COL_ABI_READ_ORDINAL_AFTER,
    COL_ABI_READ_ORDINAL_BEFORE, COL_ABI_READ_REMAINING_AFTER, COL_ABI_READ_REMAINING_BEFORE,
    COL_BOUNDARY_UTXO, COL_CALL_SP_AFTER, COL_CALL_SP_BEFORE, COL_CALL_SP_BEFORE_INVERSE,
    COL_CALL_STACK_EXPECTED_ADDR_STRIDE_8, COL_CALL_STACK_EXPECTED_ARG_VALUE,
    COL_CALL_STACK_EXPECTED_RESULT_VALUE, COL_CALL_STACK_MUL_STRIDE_8, COL_CALL_STACK_POP,
    COL_CALL_STACK_PUSH, COL_CALL_STACK_TOP, COL_CALL_TARGET, COL_CURR_AFTER, COL_CURR_BEFORE,
    COL_CURR_PHASE_AFTER, COL_CURR_PHASE_BEFORE, COL_ENABLED_METHOD_LOG_ADDR,
    COL_ENABLED_METHOD_LOG_GENERATION, COL_ENABLED_METHOD_LOG_LEN_AFTER,
    COL_ENABLED_METHOD_LOG_LEN_BEFORE, COL_ENABLED_METHOD_LOG_ORDINAL,
    COL_ENABLED_METHOD_LOG_UTXO, COL_EVENT_ACTIVE, COL_EVENT_OWNER, COL_EVENT_OWNER_STRIDE_8,
    COL_IN, COL_LAST_INPUT_HAS_ABI_AFTER, COL_LAST_INPUT_HAS_ABI_BEFORE, COL_METHOD_APPEND,
    COL_METHOD_HASH_VALUE, COL_METHOD_INDEX, COL_METHOD_LOOKUP, COL_METHOD_TABLE_ADDR,
    COL_NEXT_UTXO_ID_AFTER, COL_NEXT_UTXO_ID_BEFORE, COL_ONE, COL_OUTPUT_CURSOR_AFTER,
    COL_OUTPUT_CURSOR_BEFORE, COL_OUTPUT_REMAINING, COL_PENDING_CTOR_HANDLE_BEFORE,
    COL_PENDING_CTOR_HOLDER_AFTER, COL_PENDING_CTOR_HOLDER_BEFORE, COL_PENDING_CTOR_PRESENT_AFTER,
    COL_PENDING_CTOR_PRESENT_BEFORE, COL_RESOURCE_RESOLVER_ADDR_CID,
    COL_RESOURCE_RESOLVER_ADDR_HANDLE, COL_RESOURCE_RESOLVER_READ, COL_RESOURCE_RESOLVER_VALUE,
    COL_RESOURCE_RESOLVER_WRITE, COL_SEL_READ_ABI, COL_TX_PHASE_AFTER, COL_TX_PHASE_BEFORE,
    ROW_WIDTH,
};
use crate::opcode::Opcode;
use crate::range_check::{assign_bits, with_bits};
use crate::step::Wit;
use crate::trace::ResourceHandle;

verus! {

/// One where a condition holds, else zero.
pub open spec fn flag(condition: bool) -> u64 {
    if condition {
        1
    } else {
        0
    }
}

/// Lane `i` of a bus; an unused bus holds zero.
pub open spec fn lane(bus: Option<[u64; 8]>, i: int) -> u64 {
    match bus {
        Some(limbs) => limbs[i],
        None => 0,
    }
}

/// Packed holder of an optional resource key.
pub open spec fn holder_of(key: Option<(CoroutineId, ResourceHandle)>) -> u64 {
    match key {
        Some((holder, _)) => holder.packed(),
        None => 0,
    }
}

/// Handle of an optional resource key.
pub open spec fn handle_of(key: Option<(CoroutineId, ResourceHandle)>) -> u64 {
    match key {
        Some((_, handle)) => handle.0 as u64,
        None => 0,
    }
}

/// Whether a row of an opcode resolves a method hash through the method table.
pub open spec fn looks_up_method(op: Opcode) -> bool {
    op.appends_method() || op == Opcode::CallMethod || op == Opcode::ReadAbi
}

/// Whether a row of an opcode updates a registration count.
pub open spec fn writes_count(op: Opcode) -> bool {
    op.appends_method() || op == Opcode::YieldBegin
}

/// Value of a column that is assigned from the witness record alone, with the
/// derived addresses left at zero.
pub open spec fn cell(w: Wit, column: int) -> u64 {
    if column == COL_ONE {
        1
    } else if column < COL_METHOD_APPEND || column == COL_SEL_READ_ABI {
        flag(w.opcode.selector() == column)
    } else if column == COL_METHOD_APPEND {
        flag(w.opcode.appends_method())
    } else if column == COL_EVENT_ACTIVE {
        flag(w.opcode.has_event())
    } else if column == COL_EVENT_OWNER {
        w.event_owner.packed()
    } else if column == COL_BOUNDARY_UTXO {
        w.boundary_utxo.packed()
    } else if column == COL_OUTPUT_REMAINING {
        if w.opcode.scans_output() {
            residue(w.next_utxo_id_before - w.tx_before.output_cursor - 1)
        } else {
            0
        }
    } else if column == COL_CURR_BEFORE {
        w.curr_before.packed()
    } else if column == COL_CURR_AFTER {
        w.curr_after.packed()
    } else if column == COL_CALL_STACK_PUSH {
        flag(w.opcode.pushes_to_call_stack())
    } else if column == COL_CALL_STACK_POP {
        flag(w.opcode.pops_from_call_stack())
    } else if column == COL_CALL_STACK_TOP {
        flag(w.opcode.peeks_call_stack_top())
    } else if column == COL_CALL_SP_BEFORE_INVERSE {
        if w.opcode.is_execution() {
            inverse_or_zero(w.call_sp_before)
        } else {
            0
        }
    } else if column < COL_CALL_STACK_EXPECTED_ARG_VALUE {
        0
    } else if column < COL_CALL_STACK_EXPECTED_RESULT_VALUE {
        lane(w.expected_arguments, column - COL_CALL_STACK_EXPECTED_ARG_VALUE)
    } else if column < COL_METHOD_HASH_VALUE {
        lane(w.expected_result, column - COL_CALL_STACK_EXPECTED_RESULT_VALUE)
    } else if column < COL_METHOD_INDEX {
        lane(w.method_hash, column - COL_METHOD_HASH_VALUE)
    } else if column == COL_METHOD_INDEX {
        w.method_index as u64
    } else if column == COL_METHOD_LOOKUP {
        flag(looks_up_method(w.opcode))
    } else if column < COL_CALL_TARGET {
        if looks_up_method(w.opcode) {
            (8 * w.method_index + (column - COL_METHOD_TABLE_ADDR)) as u64
        } else {
            0
        }
    } else if column == COL_CALL_TARGET {
        w.call_target.packed()
    } else if column == COL_ABI_METHOD_COUNT_ADDR {
        if writes_count(w.opcode) {
            w.abi_generation_address.packed()
        } else if w.opcode.scans_output() {
            w.boundary_utxo.packed()
        } else {
            0
        }
    } else if column < COL_ABI_GENERATION_AFTER {
        abi_cell(w, column)
    } else {
        late_cell(w, column)
    }
}

/// [`cell`] of the columns of ABI enumeration and of the enabled-method log.
pub open spec fn abi_cell(w: Wit, column: int) -> u64 {
    if column == COL_ABI_READ_REMAINING_BEFORE {
        w.tx_before.abi_read_remaining as u64
    } else if column == COL_ABI_READ_REMAINING_AFTER {
        w.tx_after.abi_read_remaining as u64
    } else if column == COL_ABI_READ_ORDINAL_BEFORE {
        w.tx_before.abi_read_ordinal as u64
    } else if column == COL_ABI_READ_ORDINAL_AFTER {
        w.tx_after.abi_read_ordinal as u64
    } else if column == COL_ABI_METHOD_COUNT_BEFORE {
        w.abi_method_count_before as u64
    } else if column == COL_ABI_METHOD_COUNT_AFTER {
        w.abi_method_count_after as u64
    } else if column == COL_ABI_METHOD_COUNT_INVERSE {
        if w.opcode == Opcode::GetStorage {
            inverse_or_zero(w.abi_method_count_before as u64)
        } else {
            0
        }
    } else if column == COL_ENABLED_METHOD_LOG_ORDINAL {
        if w.opcode.appends_method() {
            w.abi_method_count_before as u64
        } else if w.opcode == Opcode::ReadAbi {
            w.tx_before.abi_read_ordinal as u64
        } else {
            0
        }
    } else if column == COL_ABI_METHOD_COUNT_WRITE {
        flag(writes_count(w.opcode))
    } else if column == COL_ABI_METHOD_COUNT_READ {
        flag(w.opcode.scans_output())
    } else if column == COL_ENABLED_METHOD_LOG_ADDR {
        w.enabled_method_log_address as u64
    } else if column == COL_ENABLED_METHOD_LOG_UTXO {
        w.enabled_method_log_utxo.packed()
    } else if column == COL_ENABLED_METHOD_LOG_GENERATION {
        w.enabled_method_log_generation as u64
    } else if column == COL_ABI_GENERATION_ADDR {
        w.abi_generation_address.packed()
    } else {
        w.abi_generation_before as u64
    }
}

/// [`cell`] of the columns of resources and of carried state.
pub open spec fn late_cell(w: Wit, column: int) -> u64 {
    if column == COL_ABI_GENERATION_AFTER {
        w.abi_generation_after as u64
    } else if column == COL_RESOURCE_RESOLVER_ADDR_CID {
        w.resolver_address.0.packed()
    } else if column == COL_RESOURCE_RESOLVER_ADDR_HANDLE {
        w.resolver_address.1.0 as u64
    } else if column == COL_RESOURCE_RESOLVER_VALUE {
        w.resolver_value.packed()
    } else if column == COL_RESOURCE_RESOLVER_WRITE {
        flag(w.resolver_write)
    } else if column == COL_RESOURCE_RESOLVER_READ {
        flag(w.resolver_read)
    } else if column < COL_TX_PHASE_BEFORE {
        0
    } else if column == COL_TX_PHASE_BEFORE {
        w.tx_before.phase.value()
    } else if column == COL_TX_PHASE_AFTER {
        w.tx_after.phase.value()
    } else if column == COL_LAST_INPUT_HAS_ABI_BEFORE {
        flag(w.tx_before.last_input_has_abi)
    } else if column == COL_LAST_INPUT_HAS_ABI_AFTER {
        flag(w.tx_after.last_input_has_abi)
    } else if column == COL_OUTPUT_CURSOR_BEFORE {
        w.tx_before.output_cursor as u64
    } else if column == COL_OUTPUT_CURSOR_AFTER {
        w.tx_after.output_cursor as u64
    } else if column == COL_CURR_PHASE_BEFORE {
        w.curr_phase_before.value() as u64
    } else if column == COL_CURR_PHASE_AFTER {
        w.curr_phase_after.value() as u64
    } else if column == COL_CALL_SP_BEFORE {
        w.call_sp_before
    } else if column == COL_CALL_SP_AFTER {
        w.call_sp_after
    } else if column == COL_NEXT_UTXO_ID_BEFORE {
        w.next_utxo_id_before as u64
    } else if column == COL_NEXT_UTXO_ID_AFTER {
        w.next_utxo_id_after as u64
    } else if column == COL_ENABLED_METHOD_LOG_LEN_BEFORE {
        w.enabled_method_log_len_before as u64
    } else if column == COL_ENABLED_METHOD_LOG_LEN_AFTER {
        w.enabled_method_log_len_after as u64
    } else if column == COL_PENDING_CTOR_PRESENT_BEFORE {
        flag(w.pending_ctor_key_before is Some)
    } else if column == COL_PENDING_CTOR_PRESENT_AFTER {
        flag(w.pending_ctor_key_after is Some)
    } else if column == COL_PENDING_CTOR_HOLDER_BEFORE {
        holder_of(w.pending_ctor_key_before)
    } else if column == COL_PENDING_CTOR_HOLDER_AFTER {
        holder_of(w.pending_ctor_key_after)
    } else if column == COL_PENDING_CTOR_HANDLE_BEFORE {
        handle_of(w.pending_ctor_key_before)
    } else {
        handle_of(w.pending_ctor_key_after)
    }
}

/// The columns assigned from the witness record alone.
pub open spec fn semantic_row(w: Wit) -> Seq<u64> {
    Seq::new(
        ROW_WIDTH as nat,
        |c: int|
            if c < COL_IN {
                cell(w, c)
            } else {
                0
            },
    )
}

/// Address of word `i` of the frame `back` below the stack pointer of a row.
pub open spec fn frame_address(row: Seq<u64>, back: int, i: int) -> u64 {
    residue(8 * (row[COL_CALL_SP_BEFORE as int] - back) + i)
}

/// A row with its strided addresses assigned from the stack pointer, the stack
/// access flags and the event owner.
pub open spec fn with_strides(row: Seq<u64>) -> Seq<u64> {
    let top = row[COL_CALL_STACK_TOP as int] as int;
    let pop = row[COL_CALL_STACK_POP as int] as int;
    Seq::new(
        row.len(),
        |c: int|
            if COL_CALL_STACK_MUL_STRIDE_8 <= c < COL_CALL_STACK_EXPECTED_ADDR_STRIDE_8 {
                frame_address(row, top + pop, c - COL_CALL_STACK_MUL_STRIDE_8)
            } else if COL_CALL_STACK_EXPECTED_ADDR_STRIDE_8 <= c
                < COL_CALL_STACK_EXPECTED_ARG_VALUE {
                frame_address(row, top, c - COL_CALL_STACK_EXPECTED_ADDR_STRIDE_8)
            } else if COL_EVENT_OWNER_STRIDE_8 <= c < COL_TX_PHASE_BEFORE {
                residue(8 * row[COL_EVENT_OWNER as int] + (c - COL_EVENT_OWNER_STRIDE_8))
            } else {
                row[c]
            },
    )
}

/// The row of a witness record.
pub open spec fn witness_row(w: Wit, h: spec_fn([u64; 4], [u64; 8]) -> [u64; 4]) -> Seq<u64> {
    with_bits(
        with_commitment(with_input(with_strides(semantic_row(w)), w.commitment_before), w.opcode, h),
        COLUMN_COUNT as int,
    )
}

fn bit_value(condition: bool) -> (r: u64)
    ensures
        r == flag(condition),
{
    if condition {
        1
    } else {
        0
    }
}

fn lane_of(bus: &Option<[u64; 8]>, i: usize) -> (r: u64)
    requires
        i < 8,
    ensures
        r == lane(*bus, i as int),
{
    match bus {
        Some(limbs) => limbs[i],
        None => 0,
    }
}

fn holder(key: Option<(CoroutineId, ResourceHandle)>) -> (r: u64)
    ensures
        r == holder_of(key),
{
    match key {
        Some((holder, _)) => holder.field(),
        None => 0,
    }
}

fn handle(key: Option<(CoroutineId, ResourceHandle)>) -> (r: u64)
    ensures
        r == handle_of(key),
{
    match key {
        Some((_, handle)) => handle.0 as u64,
        None => 0,
    }
}

fn resolves_method(op: Opcode) -> (r: bool)
    ensures
        r == looks_up_method(op),
{
    op.appends_method() || matches!(op, Opcode::CallMethod | Opcode::ReadAbi)
}

fn updates_count(op: Opcode) -> (r: bool)
    ensures
        r == writes_count(op),
{
    op.appends_method() || matches!(op, Opcode::YieldBegin)
}

/// The unscanned outputs beyond the next one.
fn output_remaining(next: u32, cursor: u32) -> (r: u64)
    ensures
        r == residue(next - cursor - 1),
{
    let wide: u64 = (cursor as u64) + 1;
    field_sub(next as u64, wide)
}

/// [`cell`] of a column.
fn cell_of(w: &Wit, column: usize) -> (value: u64)
    requires
        column < COL_IN,
    ensures
        value == cell(*w, column as int),
{
    if column == COL_ONE {
        1
    } else if column < COL_METHOD_APPEND || column == COL_SEL_READ_ABI {
        bit_value(w.opcode.selector() == column)
    } else if column == COL_METHOD_APPEND {
        bit_value(w.opcode.appends_method())
    } else if column == COL_EVENT_ACTIVE {
        bit_value(w.opcode.has_event())
    } else if column == COL_EVENT_OWNER {
        w.event_owner.field()
    } else if column == COL_BOUNDARY_UTXO {
        w.boundary_utxo.field()
    } else if column == COL_OUTPUT_REMAINING {
        if w.opcode.scans_output() {
            output_remaining(w.next_utxo_id_before, w.tx_before.output_cursor)
        } else {
            0
        }
    } else if column == COL_CURR_BEFORE {
        w.curr_before.field()
    } else if column == COL_CURR_AFTER {
        w.curr_after.field()
    } else if column == COL_CALL_STACK_PUSH {
        bit_value(w.opcode.pushes_to_call_stack())
    } else if column == COL_CALL_STACK_POP {
        bit_value(w.opcode.pops_from_call_stack())
    } else if column == COL_CALL_STACK_TOP {
        bit_value(w.opcode.peeks_call_stack_top())
    } else if column == COL_CALL_SP_BEFORE_INVERSE {
        if w.opcode.is_execution() {
            field_inverse(w.call_sp_before)
        } else {
            0
        }
    } else if column < COL_CALL_STACK_EXPECTED_ARG_VALUE {
        0
    } else if column < COL_CALL_STACK_EXPECTED_RESULT_VALUE {
        lane_of(&w.expected_arguments, column - COL_CALL_STACK_EXPECTED_ARG_VALUE)
    } else if column < COL_METHOD_HASH_VALUE {
        lane_of(&w.expected_result, column - COL_CALL_STACK_EXPECTED_RESULT_VALUE)
    } else if column < COL_METHOD_INDEX {
        lane_of(&w.method_hash, column - COL_METHOD_HASH_VALUE)
    } else if column == COL_METHOD_INDEX {
        w.method_index as u64
    } else if column == COL_METHOD_LOOKUP {
        bit_value(resolves_method(w.opcode))
    } else if column < COL_CALL_TARGET {
        if resolves_method(w.opcode) {
            8 * (w.method_index as u64) + (column - COL_METHOD_TABLE_ADDR) as u64
        } else {
            0
        }
    } else if column == COL_CALL_TARGET {
        w.call_target.field()
    } else if column == COL_ABI_METHOD_COUNT_ADDR {
        if updates_count(w.opcode) {
            w.abi_generation_address.field()
        } else if w.opcode.scans_output() {
            w.boundary_utxo.field()
        } else {
            0
        }
    } else if column < COL_ABI_GENERATION_AFTER {
        abi_cell_of(w, column)
    } else {
        late_cell_of(w, column)
    }
}

/// [`abi_cell`] of a column.
fn abi_cell_of(w: &Wit, column: usize) -> (value: u64)
    ensures
        value == abi_cell(*w, column as int),
{
    if column == COL_ABI_READ_REMAINING_BEFORE {
        w.tx_before.abi_read_remaining as u64
    } else if column == COL_ABI_READ_REMAINING_AFTER {
        w.tx_after.abi_read_remaining as u64
    } else if column == COL_ABI_READ_ORDINAL_BEFORE {
        w.tx_before.abi_read_ordinal as u64
    } else if column == COL_ABI_READ_ORDINAL_AFTER {
        w.tx_after.abi_read_ordinal as u64
    } else if column == COL_ABI_METHOD_COUNT_BEFORE {
        w.abi_method_count_before as u64
    } else if column == COL_ABI_METHOD_COUNT_AFTER {
        w.abi_method_count_after as u64
    } else if column == COL_ABI_METHOD_COUNT_INVERSE {
        if matches!(w.opcode, Opcode::GetStorage) {
            field_inverse(w.abi_method_count_before as u64)
        } else {
            0
        }
    } else if column == COL_ENABLED_METHOD_LOG_ORDINAL {
        if w.opcode.appends_method() {
            w.abi_method_count_before as u64
        } else if matches!(w.opcode, Opcode::ReadAbi) {
            w.tx_before.abi_read_ordinal as u64
        } else {
            0
        }
    } else if column == COL_ABI_METHOD_COUNT_WRITE {
        bit_value(updates_count(w.opcode))
    } else if column == COL_ABI_METHOD_COUNT_READ {
        bit_value(w.opcode.scans_output())
    } else if column == COL_ENABLED_METHOD_LOG_ADDR {
        w.enabled_method_log_address as u64
    } else if column == COL_ENABLED_METHOD_LOG_UTXO {
        w.enabled_method_log_utxo.field()
    } else if column == COL_ENABLED_METHOD_LOG_GENERATION {
        w.enabled_method_log_generation as u64
    } else if column == COL_ABI_GENERATION_ADDR {
        w.abi_generation_address.field()
    } else {
        w.abi_generation_before as u64
    }
}

/// [`late_cell`] of a column.
fn late_cell_of(w: &Wit, column: usize) -> (value: u64)
    ensures
        value == late_cell(*w, column as int),
{
    if column == COL_ABI_GENERATION_AFTER {
        w.abi_generation_after as u64
    } else if column == COL_RESOURCE_RESOLVER_ADDR_CID {
        w.resolver_address.0.field()
    } else if column == COL_RESOURCE_RESOLVER_ADDR_HANDLE {
        w.resolver_address.1.0 as u64
    } else if column == COL_RESOURCE_RESOLVER_VALUE {
        w.resolver_value.field()
    } else if column == COL_RESOURCE_RESOLVER_WRITE {
        bit_value(w.resolver_write)
    } else if column == COL_RESOURCE_RESOLVER_READ {
        bit_value(w.resolver_read)
    } else if column < COL_TX_PHASE_BEFORE {
        0
    } else if column == COL_TX_PHASE_BEFORE {
        w.tx_before.phase.value()
    } else if column == COL_TX_PHASE_AFTER {
        w.tx_after.phase.value()
    } else if column == COL_LAST_INPUT_HAS_ABI_BEFORE {
        bit_value(w.tx_before.last_input_has_abi)
    } else if column == COL_LAST_INPUT_HAS_ABI_AFTER {
        bit_value(w.tx_after.last_input_has_abi)
    } else if column == COL_OUTPUT_CURSOR_BEFORE {
        w.tx_before.output_cursor as u64
    } else if column == COL_OUTPUT_CURSOR_AFTER {
        w.tx_after.output_cursor as u64
    } else if column == COL_CURR_PHASE_BEFORE {
        w.curr_phase_before.value() as u64
    } else if column == COL_CURR_PHASE_AFTER {
        w.curr_phase_after.value() as u64
    } else if column == COL_CALL_SP_BEFORE {
        w.call_sp_before
    } else if column == COL_CALL_SP_AFTER {
        w.call_sp_after
    } else if column == COL_NEXT_UTXO_ID_BEFORE {
        w.next_utxo_id_before as u64
    } else if column == COL_NEXT_UTXO_ID_AFTER {
        w.next_utxo_id_after as u64
    } else if column == COL_ENABLED_METHOD_LOG_LEN_BEFORE {
        w.enabled_method_log_len_before as u64
    } else if column == COL_ENABLED_METHOD_LOG_LEN_AFTER {
        w.enabled_method_log_len_after as u64
    } else if column == COL_PENDING_CTOR_PRESENT_BEFORE {
        bit_value(w.pending_ctor_key_before.is_some())
    } else if column == COL_PENDING_CTOR_PRESENT_AFTER {
        bit_value(w.pending_ctor_key_after.is_some())
    } else if column == COL_PENDING_CTOR_HOLDER_BEFORE {
        holder(w.pending_ctor_key_before)
    } else if column == COL_PENDING_CTOR_HOLDER_AFTER {
        holder(w.pending_ctor_key_after)
    } else if column == COL_PENDING_CTOR_HANDLE_BEFORE {
        handle(w.pending_ctor_key_before)
    } else {
        handle(w.pending_ctor_key_after)
    }
}

/// `8 * base + i` in the field.
fn strided(base: u64, i: usize, Ghost(exact): Ghost<int>) -> (r: u64)
    requires
        residue(base as int) == residue(exact),
    ensures
        r == residue(8 * exact + i),
{
    proof {
        let p = FIELD_MODULUS as int;
        vstd::arithmetic::div_mod::lemma_mul_mod_noop_right(8, base as int, p);
        vstd::arithmetic::div_mod::lemma_mul_mod_noop_right(8, exact, p);
        vstd::arithmetic::div_mod::lemma_add_mod_noop(8 * base, i as int, p);
        vstd::arithmetic::div_mod::lemma_add_mod_noop(8 * exact, i as int, p);
        vstd::arithmetic::div_mod::lemma_add_mod_noop(residue(8 * base) as int, i as int, p);
        vstd::arithmetic::div_mod::lemma_mod_twice(8 * base, p);
    }
    field_add(field_mul(8, base), i as u64)
}

/// Assign the strided addresses of a row. A row whose stack pointer, stack access
/// flags or event owner were changed gets the addresses of the changed values.
pub fn assign_stride_columns(row: &mut Vec<u64>)
    requires
        old(row)@.len() == ROW_WIDTH,
    ensures
        final(row)@ == with_strides(old(row)@),
{
    let ghost start = row@;
    let sp = row[COL_CALL_SP_BEFORE];
    let top = row[COL_CALL_STACK_TOP];
    let pop = row[COL_CALL_STACK_POP];
    let owner = row[COL_EVENT_OWNER];
    let expected = field_sub(sp, top);
    let frame = field_sub(expected, pop);
    proof {
        let p = FIELD_MODULUS as int;
        vstd::arithmetic::div_mod::lemma_mod_twice(sp - top, p);
        vstd::arithmetic::div_mod::lemma_sub_mod_noop(expected as int, pop as int, p);
        vstd::arithmetic::div_mod::lemma_sub_mod_noop(sp - top, pop as int, p);
        vstd::arithmetic::div_mod::lemma_mod_twice(expected - pop, p);
        assert(sp - top - pop == sp - (top + pop));
    }
    let mut i: usize = 0;
    while i < 8
        invariant
            i <= 8,
            start.len() == ROW_WIDTH,
            row@.len() == ROW_WIDTH,
            sp == start[COL_CALL_SP_BEFORE as int],
            top == start[COL_CALL_STACK_TOP as int],
            pop == start[COL_CALL_STACK_POP as int],
            owner == start[COL_EVENT_OWNER as int],
            residue(expected as int) == residue(sp - top),
            residue(frame as int) == residue(sp - (top + pop)),
            forall|c: int|
                0 <= c < ROW_WIDTH ==> #[trigger] row@[c] == (if COL_CALL_STACK_MUL_STRIDE_8 <= c
                    < COL_CALL_STACK_MUL_STRIDE_8 + i || COL_CALL_STACK_EXPECTED_ADDR_STRIDE_8 <= c
                    < COL_CALL_STACK_EXPECTED_ADDR_STRIDE_8 + i || COL_EVENT_OWNER_STRIDE_8 <= c
                    < COL_EVENT_OWNER_STRIDE_8 + i {
                    with_strides(start)[c]
                } else {
                    start[c]
                }),
        decreases 8 - i,
    {
        row[COL_CALL_STACK_MUL_STRIDE_8 + i] = strided(frame, i, Ghost(sp - (top + pop)));
        row[COL_CALL_STACK_EXPECTED_ADDR_STRIDE_8 + i] = strided(expected, i, Ghost(sp - top));
        row[COL_EVENT_OWNER_STRIDE_8 + i] = strided(owner, i, Ghost(owner as int));
        i = i + 1;
    }
    assert(row@ =~= with_strides(start));
}

/// Build the row of a witness record.
pub fn build_witness_vector<C: Fn([u64; 4], [u64; 8]) -> [u64; 4]>(wit: &Wit, compress: &C) -> (row:
    Vec<u64>)
    requires
        is_compression(*compress),
    ensures
        row@ == witness_row(*wit, compression_of(*compress)),
        row@.len() == ROW_WIDTH,
{
    let mut row: Vec<u64> = Vec::new();
    while row.len() < ROW_WIDTH
        invariant
            row@.len() <= ROW_WIDTH,
            forall|c: int| 0 <= c < row@.len() ==> #[trigger] row@[c] == semantic_row(*wit)[c],
        decreases ROW_WIDTH - row@.len(),
    {
        let c = row.len();
        if c < COL_IN {
            row.push(cell_of(wit, c));
        } else {
            row.push(0);
        }
    }
    assert(row@ =~= semantic_row(*wit));
    assign_stride_columns(&mut row);
    assign(&mut row, wit, compress);
    assign_bits(&mut row);
    row
}

} // verus!
