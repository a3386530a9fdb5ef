//! What the columns of a row of a witness record show.

use vstd::prelude::*;

use crate::field::{inverse_or_zero, residue, vanishes, FIELD_MODULUS};
use crate::layout::{
    ROW_WIDTH, COL_ABI_GENERATION_ADDR, COL_ABI_GENERATION_AFTER, COL_ABI_GENERATION_BEFORE,
    COL_ABI_METHOD_COUNT_ADDR, COL_ABI_METHOD_COUNT_AFTER, COL_ABI_METHOD_COUNT_BEFORE,
    COL_ABI_METHOD_COUNT_INVERSE, COL_ABI_METHOD_COUNT_READ, COL_ABI_METHOD_COUNT_WRITE,
    COL_ABI_READ_ORDINAL_AFTER, COL_ABI_READ_ORDINAL_BEFORE, COL_ABI_READ_REMAINING_AFTER,
    COL_ABI_READ_REMAINING_BEFORE, COL_BOUNDARY_UTXO, COL_CALL_SP_AFTER, COL_CALL_SP_BEFORE,
    COL_CALL_SP_BEFORE_INVERSE, COL_CALL_STACK_EXPECTED_ADDR_STRIDE_8,
    COL_CALL_STACK_EXPECTED_ARG_VALUE, COL_CALL_STACK_MUL_STRIDE_8, COL_CALL_STACK_POP,
    COL_CALL_STACK_PUSH, COL_CALL_STACK_TOP, COL_CALL_TARGET, COL_CURR_AFTER, COL_CURR_BEFORE,
    COL_CURR_PHASE_AFTER, COL_CURR_PHASE_BEFORE, COL_ENABLED_METHOD_LOG_ADDR,
    COL_ENABLED_METHOD_LOG_GENERATION, COL_ENABLED_METHOD_LOG_LEN_AFTER,
    COL_ENABLED_METHOD_LOG_LEN_BEFORE, COL_ENABLED_METHOD_LOG_ORDINAL,
    COL_ENABLED_METHOD_LOG_UTXO, COL_EVENT_ACTIVE, COL_EVENT_OWNER, COL_EVENT_OWNER_STRIDE_8,
    COL_IN, COL_LAST_INPUT_HAS_ABI_AFTER, COL_LAST_INPUT_HAS_ABI_BEFORE, COL_METHOD_APPEND,
    COL_METHOD_INDEX, COL_METHOD_LOOKUP, COL_METHOD_TABLE_ADDR, COL_NEXT_UTXO_ID_AFTER,
    COL_NEXT_UTXO_ID_BEFORE, COL_ONE, COL_OUTPUT_CURSOR_AFTER, COL_OUTPUT_CURSOR_BEFORE,
    COL_OUTPUT_REMAINING, COL_PENDING_CTOR_HANDLE_AFTER, COL_PENDING_CTOR_HANDLE_BEFORE,
    COL_PENDING_CTOR_HOLDER_AFTER, COL_PENDING_CTOR_HOLDER_BEFORE, COL_PENDING_CTOR_PRESENT_AFTER,
    COL_PENDING_CTOR_PRESENT_BEFORE, COL_RESOURCE_RESOLVER_ADDR_CID,
    COL_RESOURCE_RESOLVER_ADDR_HANDLE, COL_RESOURCE_RESOLVER_READ, COL_RESOURCE_RESOLVER_VALUE,
    COL_RESOURCE_RESOLVER_WRITE, COL_TX_PHASE_AFTER, COL_TX_PHASE_BEFORE,
};
use crate::memory::value_of;
use crate::opcode::{law_selectors_are_distinct, Opcode};
use crate::prime::law_inverses_exist;
use crate::selection::selects_only;
use crate::step::Wit;
use crate::witness::{cell, flag, handle_of, holder_of, looks_up_method, witness_row, writes_count};

verus! {

/// Whether a column of a row is assigned as [`cell`] says.
pub open spec fn is_plain(column: int) -> bool {
    &&& 0 <= column < COL_IN
    &&& !(COL_CALL_STACK_MUL_STRIDE_8 <= column < COL_CALL_STACK_EXPECTED_ARG_VALUE)
    &&& !(COL_EVENT_OWNER_STRIDE_8 <= column < COL_TX_PHASE_BEFORE)
}

/// Value of a plain column of the row of a witness record.
pub proof fn lemma_cell(w: Wit, h: spec_fn([u64; 4], [u64; 8]) -> [u64; 4], column: usize)
    requires
        is_plain(column as int),
    ensures
        value_of(witness_row(w, h), column) == residue(cell(w, column as int) as int),
{
}

/// Value of a plain column that is small.
pub(crate) proof fn lemma_small_cell(
    w: Wit,
    h: spec_fn([u64; 4], [u64; 8]) -> [u64; 4],
    column: usize,
)
    requires
        is_plain(column as int),
        cell(w, column as int) < FIELD_MODULUS,
    ensures
        value_of(witness_row(w, h), column) == cell(w, column as int),
{
    lemma_cell(w, h, column);
    vstd::arithmetic::div_mod::lemma_small_mod(
        cell(w, column as int) as nat,
        FIELD_MODULUS as nat,
    );
}

/// The row of a witness record selects its opcode.
pub proof fn lemma_row_selects(w: Wit, h: spec_fn([u64; 4], [u64; 8]) -> [u64; 4])
    ensures
        selects_only(witness_row(w, h), w.opcode),
{
    let z = witness_row(w, h);
    assert forall|o: Opcode|
        #[trigger] value_of(z, o.selector()) == (if o == w.opcode {
            1u64
        } else {
            0
        }) by {
        law_selectors_are_distinct(o, w.opcode);
        lemma_small_cell(w, h, o.selector());
    }
}

/// Flags of a row.
pub open spec fn shows_flags(z: Seq<u64>, w: Wit) -> bool {
    &&& value_of(z, COL_METHOD_APPEND) == flag(w.opcode.appends_method())
    &&& value_of(z, COL_EVENT_ACTIVE) == flag(w.opcode.has_event())
    &&& value_of(z, COL_CALL_STACK_PUSH) == flag(w.opcode.pushes_to_call_stack())
    &&& value_of(z, COL_CALL_STACK_POP) == flag(w.opcode.pops_from_call_stack())
    &&& value_of(z, COL_CALL_STACK_TOP) == flag(w.opcode.peeks_call_stack_top())
    &&& value_of(z, COL_METHOD_LOOKUP) == flag(looks_up_method(w.opcode))
    &&& value_of(z, COL_ABI_METHOD_COUNT_WRITE) == flag(writes_count(w.opcode))
    &&& value_of(z, COL_ABI_METHOD_COUNT_READ) == flag(w.opcode.scans_output())
    &&& value_of(z, COL_RESOURCE_RESOLVER_WRITE) == flag(w.resolver_write)
    &&& value_of(z, COL_RESOURCE_RESOLVER_READ) == flag(w.resolver_read)
}

proof fn lemma_shows_flags(w: Wit, h: spec_fn([u64; 4], [u64; 8]) -> [u64; 4])
    ensures
        shows_flags(witness_row(w, h), w),
{
    lemma_small_cell(w, h, COL_METHOD_APPEND);
    lemma_small_cell(w, h, COL_EVENT_ACTIVE);
    lemma_small_cell(w, h, COL_CALL_STACK_PUSH);
    lemma_small_cell(w, h, COL_CALL_STACK_POP);
    lemma_small_cell(w, h, COL_CALL_STACK_TOP);
    lemma_small_cell(w, h, COL_METHOD_LOOKUP);
    lemma_small_cell(w, h, COL_ABI_METHOD_COUNT_WRITE);
    lemma_small_cell(w, h, COL_ABI_METHOD_COUNT_READ);
    lemma_small_cell(w, h, COL_RESOURCE_RESOLVER_WRITE);
    lemma_small_cell(w, h, COL_RESOURCE_RESOLVER_READ);
}

/// The running coroutine, the call target and the pending constructor of a row.
pub open spec fn shows_turn(z: Seq<u64>, w: Wit) -> bool {
    &&& value_of(z, COL_CURR_BEFORE) == w.curr_before.packed()
    &&& value_of(z, COL_CURR_AFTER) == w.curr_after.packed()
    &&& value_of(z, COL_CALL_TARGET) == w.call_target.packed()
    &&& value_of(z, COL_CURR_PHASE_BEFORE) == w.curr_phase_before.value()
    &&& value_of(z, COL_CURR_PHASE_AFTER) == w.curr_phase_after.value()
    &&& value_of(z, COL_PENDING_CTOR_PRESENT_BEFORE) == flag(w.pending_ctor_key_before is Some)
    &&& value_of(z, COL_PENDING_CTOR_PRESENT_AFTER) == flag(w.pending_ctor_key_after is Some)
    &&& value_of(z, COL_PENDING_CTOR_HOLDER_BEFORE) == holder_of(w.pending_ctor_key_before)
    &&& value_of(z, COL_PENDING_CTOR_HOLDER_AFTER) == holder_of(w.pending_ctor_key_after)
    &&& value_of(z, COL_PENDING_CTOR_HANDLE_BEFORE) == handle_of(w.pending_ctor_key_before)
    &&& value_of(z, COL_PENDING_CTOR_HANDLE_AFTER) == handle_of(w.pending_ctor_key_after)
    &&& value_of(z, COL_RESOURCE_RESOLVER_ADDR_CID) == w.resolver_address.0.packed()
    &&& value_of(z, COL_RESOURCE_RESOLVER_ADDR_HANDLE) == w.resolver_address.1.0
    &&& value_of(z, COL_RESOURCE_RESOLVER_VALUE) == w.resolver_value.packed()
}

proof fn lemma_shows_turn(w: Wit, h: spec_fn([u64; 4], [u64; 8]) -> [u64; 4])
    ensures
        shows_turn(witness_row(w, h), w),
{
    lemma_small_cell(w, h, COL_CURR_BEFORE);
    lemma_small_cell(w, h, COL_CURR_AFTER);
    lemma_small_cell(w, h, COL_CALL_TARGET);
    lemma_small_cell(w, h, COL_CURR_PHASE_BEFORE);
    lemma_small_cell(w, h, COL_CURR_PHASE_AFTER);
    lemma_small_cell(w, h, COL_PENDING_CTOR_PRESENT_BEFORE);
    lemma_small_cell(w, h, COL_PENDING_CTOR_PRESENT_AFTER);
    lemma_small_cell(w, h, COL_PENDING_CTOR_HOLDER_BEFORE);
    lemma_small_cell(w, h, COL_PENDING_CTOR_HOLDER_AFTER);
    lemma_small_cell(w, h, COL_PENDING_CTOR_HANDLE_BEFORE);
    lemma_small_cell(w, h, COL_PENDING_CTOR_HANDLE_AFTER);
    lemma_small_cell(w, h, COL_RESOURCE_RESOLVER_ADDR_CID);
    lemma_small_cell(w, h, COL_RESOURCE_RESOLVER_ADDR_HANDLE);
    lemma_small_cell(w, h, COL_RESOURCE_RESOLVER_VALUE);
}

/// Progress of the transaction in a row.
pub open spec fn shows_transaction(z: Seq<u64>, w: Wit) -> bool {
    &&& value_of(z, COL_TX_PHASE_BEFORE) == w.tx_before.phase.value()
    &&& value_of(z, COL_TX_PHASE_AFTER) == w.tx_after.phase.value()
    &&& value_of(z, COL_LAST_INPUT_HAS_ABI_BEFORE) == flag(w.tx_before.last_input_has_abi)
    &&& value_of(z, COL_LAST_INPUT_HAS_ABI_AFTER) == flag(w.tx_after.last_input_has_abi)
    &&& value_of(z, COL_OUTPUT_CURSOR_BEFORE) == w.tx_before.output_cursor
    &&& value_of(z, COL_OUTPUT_CURSOR_AFTER) == w.tx_after.output_cursor
    &&& value_of(z, COL_ABI_READ_REMAINING_BEFORE) == w.tx_before.abi_read_remaining
    &&& value_of(z, COL_ABI_READ_REMAINING_AFTER) == w.tx_after.abi_read_remaining
    &&& value_of(z, COL_ABI_READ_ORDINAL_BEFORE) == w.tx_before.abi_read_ordinal
    &&& value_of(z, COL_ABI_READ_ORDINAL_AFTER) == w.tx_after.abi_read_ordinal
    &&& value_of(z, COL_BOUNDARY_UTXO) == w.boundary_utxo.packed()
    &&& value_of(z, COL_EVENT_OWNER) == w.event_owner.packed()
    &&& value_of(z, COL_NEXT_UTXO_ID_BEFORE) == w.next_utxo_id_before
    &&& value_of(z, COL_NEXT_UTXO_ID_AFTER) == w.next_utxo_id_after
}

proof fn lemma_shows_transaction(w: Wit, h: spec_fn([u64; 4], [u64; 8]) -> [u64; 4])
    ensures
        shows_transaction(witness_row(w, h), w),
{
    lemma_small_cell(w, h, COL_TX_PHASE_BEFORE);
    lemma_small_cell(w, h, COL_TX_PHASE_AFTER);
    lemma_small_cell(w, h, COL_LAST_INPUT_HAS_ABI_BEFORE);
    lemma_small_cell(w, h, COL_LAST_INPUT_HAS_ABI_AFTER);
    lemma_small_cell(w, h, COL_OUTPUT_CURSOR_BEFORE);
    lemma_small_cell(w, h, COL_OUTPUT_CURSOR_AFTER);
    lemma_small_cell(w, h, COL_ABI_READ_REMAINING_BEFORE);
    lemma_small_cell(w, h, COL_ABI_READ_REMAINING_AFTER);
    lemma_small_cell(w, h, COL_ABI_READ_ORDINAL_BEFORE);
    lemma_small_cell(w, h, COL_ABI_READ_ORDINAL_AFTER);
    lemma_small_cell(w, h, COL_BOUNDARY_UTXO);
    lemma_small_cell(w, h, COL_EVENT_OWNER);
    lemma_small_cell(w, h, COL_NEXT_UTXO_ID_BEFORE);
    lemma_small_cell(w, h, COL_NEXT_UTXO_ID_AFTER);
}

/// ABI generations, registration counts and the enabled-method log in a row.
pub open spec fn shows_methods(z: Seq<u64>, w: Wit) -> bool {
    &&& value_of(z, COL_ABI_GENERATION_ADDR) == w.abi_generation_address.packed()
    &&& value_of(z, COL_ABI_GENERATION_BEFORE) == w.abi_generation_before
    &&& value_of(z, COL_ABI_GENERATION_AFTER) == w.abi_generation_after
    &&& value_of(z, COL_ABI_METHOD_COUNT_BEFORE) == w.abi_method_count_before
    &&& value_of(z, COL_ABI_METHOD_COUNT_AFTER) == w.abi_method_count_after
    &&& value_of(z, COL_ENABLED_METHOD_LOG_ADDR) == w.enabled_method_log_address
    &&& value_of(z, COL_ENABLED_METHOD_LOG_UTXO) == w.enabled_method_log_utxo.packed()
    &&& value_of(z, COL_ENABLED_METHOD_LOG_GENERATION) == w.enabled_method_log_generation
    &&& value_of(z, COL_ENABLED_METHOD_LOG_LEN_BEFORE) == w.enabled_method_log_len_before
    &&& value_of(z, COL_ENABLED_METHOD_LOG_LEN_AFTER) == w.enabled_method_log_len_after
    &&& value_of(z, COL_METHOD_INDEX) == w.method_index
}

proof fn lemma_shows_methods(w: Wit, h: spec_fn([u64; 4], [u64; 8]) -> [u64; 4])
    ensures
        shows_methods(witness_row(w, h), w),
{
    lemma_small_cell(w, h, COL_ABI_GENERATION_ADDR);
    lemma_small_cell(w, h, COL_ABI_GENERATION_BEFORE);
    lemma_small_cell(w, h, COL_ABI_GENERATION_AFTER);
    lemma_small_cell(w, h, COL_ABI_METHOD_COUNT_BEFORE);
    lemma_small_cell(w, h, COL_ABI_METHOD_COUNT_AFTER);
    lemma_small_cell(w, h, COL_ENABLED_METHOD_LOG_ADDR);
    lemma_small_cell(w, h, COL_ENABLED_METHOD_LOG_UTXO);
    lemma_small_cell(w, h, COL_ENABLED_METHOD_LOG_GENERATION);
    lemma_small_cell(w, h, COL_ENABLED_METHOD_LOG_LEN_BEFORE);
    lemma_small_cell(w, h, COL_ENABLED_METHOD_LOG_LEN_AFTER);
    lemma_small_cell(w, h, COL_METHOD_INDEX);
}

/// Columns of a row that are derived from others.
pub open spec fn shows_derived(z: Seq<u64>, w: Wit) -> bool {
    &&& value_of(z, COL_CALL_SP_BEFORE) == residue(w.call_sp_before as int)
    &&& value_of(z, COL_CALL_SP_AFTER) == residue(w.call_sp_after as int)
    &&& value_of(z, COL_CALL_SP_BEFORE_INVERSE) == (if w.opcode.is_execution() {
        inverse_or_zero(w.call_sp_before)
    } else {
        0
    })
    &&& value_of(z, COL_ABI_METHOD_COUNT_INVERSE) == (if w.opcode == Opcode::GetStorage {
        inverse_or_zero(w.abi_method_count_before as u64)
    } else {
        0
    })
    &&& value_of(z, COL_OUTPUT_REMAINING) == (if w.opcode.scans_output() {
        residue(w.next_utxo_id_before - w.tx_before.output_cursor - 1)
    } else {
        0
    })
    &&& value_of(z, COL_ABI_METHOD_COUNT_ADDR) == (if writes_count(w.opcode) {
        w.abi_generation_address.packed()
    } else if w.opcode.scans_output() {
        w.boundary_utxo.packed()
    } else {
        0
    })
    &&& value_of(z, COL_ENABLED_METHOD_LOG_ORDINAL) == (if w.opcode.appends_method() {
        w.abi_method_count_before
    } else if w.opcode == Opcode::ReadAbi {
        w.tx_before.abi_read_ordinal
    } else {
        0
    })
}

/// An inverse is canonical, and the product with it is one.
pub(crate) proof fn lemma_inverse(a: u64)
    ensures
        inverse_or_zero(a) < FIELD_MODULUS,
        !vanishes(a as int) ==> residue(a * inverse_or_zero(a)) == 1,
{
    if !vanishes(a as int) {
        let p = FIELD_MODULUS as int;
        let r = a as int % p;
        let b = law_inverses_exist(r) as u64;
        vstd::arithmetic::div_mod::lemma_mul_mod_noop_left(a as int, b as int, p);
        assert(b < FIELD_MODULUS && residue(a * b) == 1);
    }
}

proof fn lemma_shows_derived(w: Wit, h: spec_fn([u64; 4], [u64; 8]) -> [u64; 4])
    ensures
        shows_derived(witness_row(w, h), w),
{
    lemma_inverse(w.call_sp_before);
    lemma_inverse(w.abi_method_count_before as u64);
    lemma_cell(w, h, COL_CALL_SP_BEFORE);
    lemma_cell(w, h, COL_CALL_SP_AFTER);
    lemma_small_cell(w, h, COL_CALL_SP_BEFORE_INVERSE);
    lemma_small_cell(w, h, COL_ABI_METHOD_COUNT_INVERSE);
    lemma_small_cell(w, h, COL_OUTPUT_REMAINING);
    lemma_small_cell(w, h, COL_ABI_METHOD_COUNT_ADDR);
    lemma_small_cell(w, h, COL_ENABLED_METHOD_LOG_ORDINAL);
}

/// Addresses of a row.
pub open spec fn shows_addresses(z: Seq<u64>, w: Wit) -> bool {
    let top = flag(w.opcode.peeks_call_stack_top());
    let pop = flag(w.opcode.pops_from_call_stack());
    let sp = residue(w.call_sp_before as int);
    &&& forall|i: int|
        0 <= i < 8 ==> #[trigger] value_of(z, (COL_METHOD_TABLE_ADDR + i) as usize) == (
        if looks_up_method(w.opcode) {
            8 * w.method_index + i
        } else {
            0
        })
    &&& forall|i: int|
        0 <= i < 8 ==> #[trigger] value_of(z, (COL_CALL_STACK_MUL_STRIDE_8 + i) as usize)
            == residue(8 * (sp - (top + pop)) + i)
    &&& forall|i: int|
        0 <= i < 8 ==> #[trigger] value_of(z, (COL_CALL_STACK_EXPECTED_ADDR_STRIDE_8 + i) as usize)
            == residue(8 * (sp - top) + i)
    &&& forall|i: int|
        0 <= i < 8 ==> #[trigger] value_of(z, (COL_EVENT_OWNER_STRIDE_8 + i) as usize)
            == residue(8 * w.event_owner.packed() + i)
}

/// The residue of an address does not depend on the representative of the pointer.
proof fn lemma_frame_address(sp: u64, back: int, i: int)
    ensures
        residue(8 * (sp - back) + i) == residue(8 * (residue(sp as int) - back) + i),
{
    let p = FIELD_MODULUS as int;
    vstd::arithmetic::div_mod::lemma_fundamental_div_mod(sp as int, p);
    let q = sp as int / p;
    let r = sp as int % p;
    let x = 8 * (r - back) + i;
    assert(8 * (sp - back) + i == x + p * (8 * q)) by (nonlinear_arith)
        requires
            sp == p * q + r,
            x == 8 * (r - back) + i,
    ;
    vstd::arithmetic::div_mod::lemma_mod_multiples_vanish(8 * q, x, p);
}

proof fn lemma_residue_again(x: int)
    ensures
        residue(residue(x) as int) == residue(x),
{
    vstd::arithmetic::div_mod::lemma_mod_bound(x, FIELD_MODULUS as int);
    vstd::arithmetic::div_mod::lemma_small_mod(residue(x) as nat, FIELD_MODULUS as nat);
}

proof fn lemma_shows_addresses(w: Wit, h: spec_fn([u64; 4], [u64; 8]) -> [u64; 4])
    ensures
        shows_addresses(witness_row(w, h), w),
{
    let z = witness_row(w, h);
    let top = flag(w.opcode.peeks_call_stack_top());
    let pop = flag(w.opcode.pops_from_call_stack());
    assert forall|i: int| 0 <= i < 8 implies #[trigger] value_of(
        z,
        (COL_METHOD_TABLE_ADDR + i) as usize,
    ) == (if looks_up_method(w.opcode) {
        8 * w.method_index + i
    } else {
        0
    }) by {
        lemma_small_cell(w, h, (COL_METHOD_TABLE_ADDR + i) as usize);
    }
    assert forall|i: int| 0 <= i < 8 implies #[trigger] value_of(
        z,
        (COL_CALL_STACK_MUL_STRIDE_8 + i) as usize,
    ) == residue(8 * (residue(w.call_sp_before as int) - (top + pop)) + i) by {
        lemma_frame_address(w.call_sp_before, top + pop, i);
        lemma_residue_again(8 * (w.call_sp_before - (top + pop)) + i);
    }
    assert forall|i: int| 0 <= i < 8 implies #[trigger] value_of(
        z,
        (COL_CALL_STACK_EXPECTED_ADDR_STRIDE_8 + i) as usize,
    ) == residue(8 * (residue(w.call_sp_before as int) - top) + i) by {
        lemma_frame_address(w.call_sp_before, top as int, i);
        lemma_residue_again(8 * (w.call_sp_before - top) + i);
    }
    assert forall|i: int| 0 <= i < 8 implies #[trigger] value_of(
        z,
        (COL_EVENT_OWNER_STRIDE_8 + i) as usize,
    ) == residue(8 * w.event_owner.packed() + i) by {
        lemma_residue_again(8 * w.event_owner.packed() + i);
    }
}

/// Whether a row shows a witness record.
pub open spec fn shows(z: Seq<u64>, w: Wit) -> bool {
    &&& z.len() == ROW_WIDTH
    &&& value_of(z, COL_ONE) == 1
    &&& selects_only(z, w.opcode)
    &&& shows_flags(z, w)
    &&& shows_turn(z, w)
    &&& shows_transaction(z, w)
    &&& shows_methods(z, w)
    &&& shows_derived(z, w)
    &&& shows_addresses(z, w)
}

/// The row of a witness record shows it.
pub proof fn law_rows_show_their_records(w: Wit, h: spec_fn([u64; 4], [u64; 8]) -> [u64; 4])
    ensures
        shows(witness_row(w, h), w),
{
    lemma_small_cell(w, h, COL_ONE);
    lemma_row_selects(w, h);
    lemma_shows_flags(w, h);
    lemma_shows_turn(w, h);
    lemma_shows_transaction(w, h);
    lemma_shows_methods(w, h);
    lemma_shows_derived(w, h);
    lemma_shows_addresses(w, h);
}

} // verus!
