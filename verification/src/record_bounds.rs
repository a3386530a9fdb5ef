//! The ranges of the columns of a row, as bounds of its record.

use vstd::prelude::*;

use crate::commitment::{event_bus, limb};
use crate::commitment_rules::{lemma_commitment_cell, plain_row};
use crate::field::{residue, FIELD_MODULUS};
use crate::layout::{
    width_of, COLUMN_COUNT, COL_ABI_GENERATION_ADDR, COL_ABI_METHOD_COUNT_AFTER,
    COL_ABI_METHOD_COUNT_BEFORE, COL_ABI_READ_ORDINAL_AFTER, COL_ABI_READ_ORDINAL_BEFORE,
    COL_ABI_READ_REMAINING_AFTER, COL_ABI_READ_REMAINING_BEFORE, COL_BOUNDARY_UTXO,
    COL_CALL_SP_AFTER, COL_CALL_SP_BEFORE, COL_CALL_STACK_EXPECTED_ADDR_STRIDE_8,
    COL_CALL_STACK_EXPECTED_ARG_VALUE, COL_CALL_STACK_EXPECTED_RESULT_VALUE,
    COL_CALL_STACK_MUL_STRIDE_8, COL_CALL_TARGET, COL_CURR_AFTER, COL_CURR_BEFORE,
    COL_ENABLED_METHOD_LOG_UTXO, COL_EVENT_OWNER, COL_EVENT_OWNER_STRIDE_8, COL_IN,
    COL_METHOD_HASH_VALUE, COL_METHOD_INDEX, COL_OUT, COL_OUTPUT_REMAINING,
    COL_PENDING_CTOR_HOLDER_AFTER, COL_PENDING_CTOR_HOLDER_BEFORE,
    COL_RESOURCE_RESOLVER_ADDR_CID, COL_RESOURCE_RESOLVER_VALUE, COL_TX_PHASE_BEFORE,
};
use crate::range_rules::in_range;
use crate::step::Wit;
use crate::witness::{cell, flag, holder_of, lane, witness_row};
use vstd::arithmetic::power2::{lemma2_to64, pow2};

verus! {

/// Whether the identities that a record names have a packed form of 32 bits, and that of
/// the event's owner one of 29 bits.
pub open spec fn identities_fit(w: Wit) -> bool {
    &&& w.event_owner.packed() < 0x2000_0000
    &&& w.boundary_utxo.packed() <= u32::MAX
    &&& w.curr_before.packed() <= u32::MAX
    &&& w.curr_after.packed() <= u32::MAX
    &&& w.call_target.packed() <= u32::MAX
    &&& w.enabled_method_log_utxo.packed() <= u32::MAX
    &&& w.abi_generation_address.packed() <= u32::MAX
    &&& w.resolver_address.0.packed() <= u32::MAX
    &&& w.resolver_value.packed() <= u32::MAX
    &&& holder_of(w.pending_ctor_key_before) <= u32::MAX
    &&& holder_of(w.pending_ctor_key_after) <= u32::MAX
}

/// Whether the registrations of a UTXO and their enumeration are counted in eight bits, the
/// methods of the trace in 29 bits, and the output scan is not past the last UTXO.
pub open spec fn counters_fit(w: Wit) -> bool {
    &&& w.method_index < 0x2000_0000
    &&& w.tx_before.abi_read_remaining <= 255
    &&& w.tx_after.abi_read_remaining <= 255
    &&& w.tx_before.abi_read_ordinal <= 255
    &&& w.tx_after.abi_read_ordinal <= 255
    &&& w.abi_method_count_before <= 255
    &&& w.abi_method_count_after <= 255
    &&& w.opcode.scans_output() ==> w.tx_before.output_cursor < w.next_utxo_id_before
}

/// Whether the call stack has fewer than 2^29 frames, and one where a step accesses the
/// innermost.
pub open spec fn stack_fits(w: Wit) -> bool {
    let top = flag(w.opcode.peeks_call_stack_top());
    let pop = flag(w.opcode.pops_from_call_stack());
    &&& w.call_sp_before <= u32::MAX
    &&& w.call_sp_after <= u32::MAX
    &&& 0 <= w.call_sp_before - (top + pop) < 0x2000_0000
    &&& 0 <= w.call_sp_before - top < 0x2000_0000
}

/// Whether limbs have 32 bits.
pub open spec fn limbs_fit(w: Wit) -> bool {
    &&& forall|i: int| 0 <= i < 8 ==> #[trigger] lane(w.expected_arguments, i) <= u32::MAX
    &&& forall|i: int| 0 <= i < 8 ==> #[trigger] lane(w.expected_result, i) <= u32::MAX
    &&& forall|i: int| 0 <= i < 8 ==> #[trigger] lane(w.method_hash, i) <= u32::MAX
}

/// Whether what a record holds fits the columns of its row.
pub open spec fn fits(w: Wit) -> bool {
    &&& identities_fit(w)
    &&& counters_fit(w)
    &&& stack_fits(w)
    &&& limbs_fit(w)
}

/// A column of a row in range is below its bound.
proof fn lemma_bounded(w: Wit, h: spec_fn([u64; 4], [u64; 8]) -> [u64; 4], c: usize)
    requires
        in_range(witness_row(w, h)),
        0 < c < COLUMN_COUNT,
        width_of(c as int) > 0,
    ensures
        width_of(c as int) == 8 ==> witness_row(w, h)[c as int] <= 255,
        width_of(c as int) == 29 ==> witness_row(w, h)[c as int] < 0x2000_0000,
        width_of(c as int) == 32 ==> witness_row(w, h)[c as int] <= u32::MAX,
{
    lemma2_to64();
    assert(witness_row(w, h)[c as int] < pow2(width_of(c as int)));
}

proof fn lemma_identities(w: Wit, h: spec_fn([u64; 4], [u64; 8]) -> [u64; 4])
    requires
        in_range(witness_row(w, h)),
    ensures
        identities_fit(w),
{
    lemma_bounded(w, h, COL_EVENT_OWNER);
    lemma_bounded(w, h, COL_BOUNDARY_UTXO);
    lemma_bounded(w, h, COL_CURR_BEFORE);
    lemma_bounded(w, h, COL_CURR_AFTER);
    lemma_bounded(w, h, COL_CALL_TARGET);
    lemma_bounded(w, h, COL_ENABLED_METHOD_LOG_UTXO);
    lemma_bounded(w, h, COL_ABI_GENERATION_ADDR);
    lemma_bounded(w, h, COL_RESOURCE_RESOLVER_ADDR_CID);
    lemma_bounded(w, h, COL_RESOURCE_RESOLVER_VALUE);
    lemma_bounded(w, h, COL_PENDING_CTOR_HOLDER_BEFORE);
    lemma_bounded(w, h, COL_PENDING_CTOR_HOLDER_AFTER);
    lemma_bounded(w, h, COL_EVENT_OWNER_STRIDE_8);
    let owner = w.event_owner.packed();
    assert(witness_row(w, h)[COL_EVENT_OWNER_STRIDE_8 as int] == residue(8 * owner as int));
    vstd::arithmetic::div_mod::lemma_small_mod((8 * owner) as nat, FIELD_MODULUS as nat);
}

proof fn lemma_counters(w: Wit, h: spec_fn([u64; 4], [u64; 8]) -> [u64; 4])
    requires
        in_range(witness_row(w, h)),
    ensures
        counters_fit(w),
{
    lemma_bounded(w, h, COL_METHOD_INDEX);
    lemma_bounded(w, h, COL_ABI_READ_REMAINING_BEFORE);
    lemma_bounded(w, h, COL_ABI_READ_REMAINING_AFTER);
    lemma_bounded(w, h, COL_ABI_READ_ORDINAL_BEFORE);
    lemma_bounded(w, h, COL_ABI_READ_ORDINAL_AFTER);
    lemma_bounded(w, h, COL_ABI_METHOD_COUNT_BEFORE);
    lemma_bounded(w, h, COL_ABI_METHOD_COUNT_AFTER);
    lemma_bounded(w, h, COL_OUTPUT_REMAINING);
    if w.opcode.scans_output() {
        let left = w.next_utxo_id_before - w.tx_before.output_cursor - 1;
        assert(witness_row(w, h)[COL_OUTPUT_REMAINING as int] == residue(left));
        lemma_residue_of_difference(left);
    }
}

/// The residue of a small difference is small exactly where the difference is not negative.
proof fn lemma_residue_of_difference(x: int)
    requires
        -0x1_0000_0000 <= x,
        x < 0x10_0000_0000,
    ensures
        0 <= x ==> residue(x) == x,
        x < 0 ==> residue(x) > u32::MAX,
{
    if 0 <= x {
        vstd::arithmetic::div_mod::lemma_small_mod(x as nat, FIELD_MODULUS as nat);
    } else {
        vstd::arithmetic::div_mod::lemma_fundamental_div_mod_converse(
            x,
            FIELD_MODULUS as int,
            -1,
            x + FIELD_MODULUS,
        );
    }
}

/// The addresses of the accessed frames in a row.
proof fn lemma_frame_cells(w: Wit, h: spec_fn([u64; 4], [u64; 8]) -> [u64; 4], i: int)
    requires
        0 <= i < 8,
    ensures
        ({
            let z = witness_row(w, h);
            let top = flag(w.opcode.peeks_call_stack_top());
            let pop = flag(w.opcode.pops_from_call_stack());
            &&& z[COL_CALL_STACK_MUL_STRIDE_8 + i] == residue(
                8 * (w.call_sp_before - (top + pop)) + i,
            )
            &&& z[COL_CALL_STACK_EXPECTED_ADDR_STRIDE_8 + i] == residue(
                8 * (w.call_sp_before - top) + i,
            )
            &&& z[COL_CALL_SP_BEFORE as int] == w.call_sp_before
            &&& z[COL_CALL_SP_AFTER as int] == w.call_sp_after
        }),
{
}

proof fn lemma_stack(w: Wit, h: spec_fn([u64; 4], [u64; 8]) -> [u64; 4])
    requires
        in_range(witness_row(w, h)),
    ensures
        stack_fits(w),
{
    let top = flag(w.opcode.peeks_call_stack_top());
    let pop = flag(w.opcode.pops_from_call_stack());
    lemma_bounded(w, h, COL_CALL_SP_BEFORE);
    lemma_bounded(w, h, COL_CALL_SP_AFTER);
    lemma_bounded(w, h, COL_CALL_STACK_MUL_STRIDE_8);
    lemma_bounded(w, h, COL_CALL_STACK_EXPECTED_ADDR_STRIDE_8);
    lemma_frame_cells(w, h, 0);
    lemma_residue_of_difference(8 * (w.call_sp_before - (top + pop)));
    lemma_residue_of_difference(8 * (w.call_sp_before - top));
}

proof fn lemma_limbs(w: Wit, h: spec_fn([u64; 4], [u64; 8]) -> [u64; 4])
    requires
        in_range(witness_row(w, h)),
    ensures
        limbs_fit(w),
{
    let z = witness_row(w, h);
    assert forall|i: int| 0 <= i < 8 implies #[trigger] lane(w.expected_arguments, i)
        <= u32::MAX by {
        lemma_bounded(w, h, (COL_CALL_STACK_EXPECTED_ARG_VALUE + i) as usize);
        assert(z[COL_CALL_STACK_EXPECTED_ARG_VALUE + i] == lane(w.expected_arguments, i));
    }
    assert forall|i: int| 0 <= i < 8 implies #[trigger] lane(w.expected_result, i)
        <= u32::MAX by {
        lemma_bounded(w, h, (COL_CALL_STACK_EXPECTED_RESULT_VALUE + i) as usize);
        assert(z[COL_CALL_STACK_EXPECTED_RESULT_VALUE + i] == lane(w.expected_result, i));
    }
    assert forall|i: int| 0 <= i < 8 implies #[trigger] lane(w.method_hash, i) <= u32::MAX by {
        lemma_bounded(w, h, (COL_METHOD_HASH_VALUE + i) as usize);
        assert(z[COL_METHOD_HASH_VALUE + i] == lane(w.method_hash, i));
    }
}

/// Whether a column of a row is below its bound.
spec fn below(z: Seq<u64>, c: int) -> bool {
    &&& width_of(c) == 1 ==> z[c] <= 1
    &&& width_of(c) == 2 ==> z[c] <= 3
    &&& width_of(c) == 8 ==> z[c] <= 255
    &&& width_of(c) == 29 ==> z[c] < 0x2000_0000
    &&& width_of(c) == 32 ==> z[c] <= u32::MAX
}

proof fn lemma_early_columns(w: Wit, h: spec_fn([u64; 4], [u64; 8]) -> [u64; 4], c: int)
    requires
        fits(w),
        0 < c < COL_CALL_STACK_MUL_STRIDE_8,
    ensures
        below(witness_row(w, h), c),
{
    assert(witness_row(w, h)[c] == cell(w, c));
    if w.opcode.scans_output() {
        lemma_residue_of_difference(w.next_utxo_id_before - w.tx_before.output_cursor - 1);
    }
}

proof fn lemma_stack_columns(w: Wit, h: spec_fn([u64; 4], [u64; 8]) -> [u64; 4], c: int)
    requires
        fits(w),
        COL_CALL_STACK_MUL_STRIDE_8 <= c < COL_CALL_STACK_EXPECTED_ARG_VALUE,
    ensures
        below(witness_row(w, h), c),
{
    let top = flag(w.opcode.peeks_call_stack_top());
    let pop = flag(w.opcode.pops_from_call_stack());
    let i = if c < COL_CALL_STACK_EXPECTED_ADDR_STRIDE_8 {
        c - COL_CALL_STACK_MUL_STRIDE_8
    } else {
        c - COL_CALL_STACK_EXPECTED_ADDR_STRIDE_8
    };
    lemma_frame_cells(w, h, i);
    lemma_residue_of_difference(8 * (w.call_sp_before - (top + pop)) + i);
    lemma_residue_of_difference(8 * (w.call_sp_before - top) + i);
}

proof fn lemma_middle_columns(w: Wit, h: spec_fn([u64; 4], [u64; 8]) -> [u64; 4], c: int)
    requires
        fits(w),
        COL_CALL_STACK_EXPECTED_ARG_VALUE <= c < COL_EVENT_OWNER_STRIDE_8,
    ensures
        below(witness_row(w, h), c),
{
    assert(witness_row(w, h)[c] == cell(w, c));
    if c < COL_CALL_STACK_EXPECTED_RESULT_VALUE {
        assert(lane(w.expected_arguments, c - COL_CALL_STACK_EXPECTED_ARG_VALUE) <= u32::MAX);
    } else if c < COL_METHOD_HASH_VALUE {
        assert(lane(w.expected_result, c - COL_CALL_STACK_EXPECTED_RESULT_VALUE) <= u32::MAX);
    } else if c < COL_METHOD_INDEX {
        assert(lane(w.method_hash, c - COL_METHOD_HASH_VALUE) <= u32::MAX);
    }
}

proof fn lemma_late_columns(w: Wit, h: spec_fn([u64; 4], [u64; 8]) -> [u64; 4], c: int)
    requires
        fits(w),
        COL_EVENT_OWNER_STRIDE_8 <= c < COL_IN,
    ensures
        below(witness_row(w, h), c),
{
    let z = witness_row(w, h);
    if c < COL_TX_PHASE_BEFORE {
        let i = c - COL_EVENT_OWNER_STRIDE_8;
        assert(z[c] == residue(8 * w.event_owner.packed() + i));
        lemma_residue_of_difference(8 * w.event_owner.packed() + i);
    } else {
        assert(z[c] == cell(w, c));
    }
}

proof fn lemma_event_columns(w: Wit, h: spec_fn([u64; 4], [u64; 8]) -> [u64; 4], c: int)
    requires
        COL_OUT <= c < COLUMN_COUNT,
    ensures
        below(witness_row(w, h), c),
{
    lemma_commitment_cell(w, h, c);
    let bus = event_bus(plain_row(w), w.opcode, h);
    assert forall|value: u64, i: int| #[trigger] limb(value, i) <= u32::MAX by {}
}

/// The columns of the row of a record are in range exactly where the record fits.
pub proof fn law_ranges_are_bounds(w: Wit, h: spec_fn([u64; 4], [u64; 8]) -> [u64; 4])
    ensures
        in_range(witness_row(w, h)) <==> fits(w),
{
    let z = witness_row(w, h);
    if in_range(z) {
        lemma_identities(w, h);
        lemma_counters(w, h);
        lemma_stack(w, h);
        lemma_limbs(w, h);
    }
    if fits(w) {
        lemma2_to64();
        assert forall|c: int| 0 <= c < COLUMN_COUNT && width_of(c) > 0 implies (#[trigger] z[c])
            < pow2(width_of(c)) by {
            if c < COL_CALL_STACK_MUL_STRIDE_8 {
                lemma_early_columns(w, h, c);
            } else if c < COL_CALL_STACK_EXPECTED_ARG_VALUE {
                lemma_stack_columns(w, h, c);
            } else if c < COL_EVENT_OWNER_STRIDE_8 {
                lemma_middle_columns(w, h, c);
            } else if c < COL_IN {
                lemma_late_columns(w, h, c);
            } else if c >= COL_OUT {
                lemma_event_columns(w, h, c);
            }
        }
    }
}

} // verus!
